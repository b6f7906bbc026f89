//! What a comparison reads off the two reports.
use vstd::prelude::*;
use crate::deltas::{
    component_differences, component_list, component_name, component_precedes, component_total,
    component_totals, component_views, of_language, score_component, ComponentDelta, MetricDelta,
};
use crate::diff::{
    burden_delta, compares, comparison_issues, has_language, language_burden, language_burden_total,
    language_difference, language_differences, language_views, path_repeats, refusal,
    repeated_path_issues, CompareOptions, Comparison, LanguageDelta, LanguageDeltaView,
};
use crate::entries::{entries, entries_upto, entry_precedes, file_entries, EntryView};
use crate::model::Language;
use crate::order::{apart, lemma_sorted_holds, sorted, sorted_apart, sorted_length};
use crate::report_input::{
    distinct_upto, files_by_path, path_precedes, InputBurden, InputFile, InputFunction, InputReport,
    InputScore,
};
use crate::sums::{clipped, total, total_concat, total_push, total_sorted, total_update};

verus! {

/// What a part of the score comes to in the callables of a file.
pub open spec fn file_units(file: InputFile, part: spec_fn(InputScore) -> nat) -> nat {
    total(file.functions@.map_values(|function: InputFunction| part(function.score)))
}

/// What a part of the score comes to in the callables of a report.
pub open spec fn report_units(report: InputReport, part: spec_fn(InputScore) -> nat) -> nat {
    total(report.files@.map_values(|file: InputFile| file_units(file, part)))
}

/// Whether the components of a comparison show, under a name, what there was and
/// what there is now, with the difference of the two. Nothing is claimed of numbers
/// beyond the range of a difference.
pub open spec fn shows(
    components: Seq<ComponentDelta>,
    name: Seq<char>,
    before: nat,
    after: nat,
) -> bool {
    before <= i64::MAX && after <= i64::MAX && before <= usize::MAX && after <= usize::MAX ==> {
        &&& exists|index: int| 0 <= index < components.len() && (#[trigger] components[index]).name@
            == name
        &&& forall|index: int|
            0 <= index < components.len() && (#[trigger] components[index]).name@ == name ==> {
                &&& components[index].before == before
                &&& components[index].after == after
                &&& components[index].delta == after - before
            }
    }
}

/// Whether two files have one path.
spec fn one_path() -> spec_fn(InputFile, InputFile) -> bool {
    |left: InputFile, right: InputFile| left.path@ == right.path@
}

proof fn lemma_no_path_issue(label: Seq<char>, files: Seq<InputFile>, count: nat)
    requires
        count <= files.len(),
        repeated_path_issues(label, files, count).len() == 0,
    ensures
        forall|left: int, right: int|
            0 <= left < right < count ==> (#[trigger] files[left]).path@ != (
            #[trigger] files[right]).path@,
    decreases count,
{
    if count > 0 {
        lemma_no_path_issue(label, files, (count - 1) as nat);
        assert(!path_repeats(files, count - 1));
    }
}

proof fn lemma_all_distinct(listed: Seq<InputFile>, count: nat)
    requires
        count <= listed.len(),
        apart(listed, one_path()),
    ensures
        distinct_upto(listed, count) == listed.take(count as int),
    decreases count,
{
    if count > 0 {
        lemma_all_distinct(listed, (count - 1) as nat);
        let earlier = distinct_upto(listed, (count - 1) as nat);
        if count > 1 {
            assert(earlier.last() == listed[count - 2]);
            assert(!one_path()(listed[count - 2], listed[count - 1]));
        }
        assert(listed.take(count as int) =~= listed.take(count - 1).push(listed[count - 1]));
    } else {
        assert(listed.take(0) =~= Seq::<InputFile>::empty());
    }
}

/// The files of a report whose paths are distinct are all looked at.
pub(crate) proof fn lemma_files_kept(files: Seq<InputFile>)
    requires
        forall|left: int, right: int|
            0 <= left < right < files.len() ==> (#[trigger] files[left]).path@ != (
            #[trigger] files[right]).path@,
    ensures
        files_by_path(files) == sorted(files, path_precedes()),
{
    let listed = sorted(files, path_precedes());
    assert(apart(files, one_path()));
    sorted_apart(files, files.len(), path_precedes(), one_path());
    lemma_all_distinct(listed, listed.len());
    assert(listed.take(listed.len() as int) =~= listed);
}

/// Neither report of a comparison that is made has two files of one path.
pub(crate) proof fn lemma_compared(
    before: InputReport,
    after: InputReport,
    options: CompareOptions,
)
    requires
        refusal(before, after, options).len() == 0,
    ensures
        files_by_path(before.files@) == sorted(before.files@, path_precedes()),
        files_by_path(after.files@) == sorted(after.files@, path_precedes()),
{
    assert(comparison_issues(before, after, options).len() == 0);
    lemma_no_path_issue("before"@, before.files@, before.files@.len());
    lemma_no_path_issue("after"@, after.files@, after.files@.len());
    lemma_files_kept(before.files@);
    lemma_files_kept(after.files@);
}

proof fn lemma_entries_total(
    files: Seq<InputFile>,
    worth: spec_fn(EntryView) -> nat,
    file_worth: spec_fn(InputFile) -> nat,
    count: nat,
)
    requires
        count <= files.len(),
        forall|index: int|
            0 <= index < files.len() ==> total(
                file_entries(#[trigger] files[index]).map_values(worth),
            ) == file_worth(files[index]),
    ensures
        total(entries_upto(files, count).map_values(worth)) == total(
            files.take(count as int).map_values(file_worth),
        ),
    decreases count,
{
    if count == 0 {
        assert(entries_upto(files, 0).map_values(worth) =~= Seq::<nat>::empty());
        assert(files.take(0).map_values(file_worth) =~= Seq::<nat>::empty());
    } else {
        lemma_entries_total(files, worth, file_worth, (count - 1) as nat);
        let earlier = entries_upto(files, (count - 1) as nat);
        let own = file_entries(files[count - 1]);
        assert((earlier + own).map_values(worth) =~= earlier.map_values(worth) + own.map_values(
            worth,
        ));
        total_concat(earlier.map_values(worth), own.map_values(worth));
        let fewer = files.take(count - 1).map_values(file_worth);
        assert(files.take(count as int).map_values(file_worth) =~= fewer.push(
            file_worth(files[count - 1]),
        ));
        total_push(fewer, file_worth(files[count - 1]));
    }
}

/// What is added up over the callables that are compared is added up over all
/// callables of the files.
pub(crate) proof fn lemma_all_callables(
    files: Seq<InputFile>,
    worth: spec_fn(EntryView) -> nat,
    file_worth: spec_fn(InputFile) -> nat,
)
    requires
        files_by_path(files) == sorted(files, path_precedes()),
        forall|file: InputFile| #[trigger]
            file_worth(file) == total(file_entries(file).map_values(worth)),
    ensures
        total(entries(files).map_values(worth)) == total(files.map_values(file_worth)),
{
    let listed = files_by_path(files);
    let all = entries_upto(listed, listed.len());
    lemma_entries_total(listed, worth, file_worth, listed.len());
    assert(listed.take(listed.len() as int) =~= listed);
    total_sorted(all, entry_precedes(), worth);
    total_sorted(files, path_precedes(), file_worth);
}

proof fn lemma_component_sum(
    listed: Seq<EntryView>,
    language: Option<Language>,
    component: int,
    count: nat,
)
    requires
        count <= listed.len(),
    ensures
        component_total(listed, language, component, count) == total(
            listed.take(count as int).map_values(
                |entry: EntryView|
                    if of_language(entry, language) {
                        score_component(entry.function.score, component) as nat
                    } else {
                        0
                    },
            ),
        ),
    decreases count,
{
    let worth = |entry: EntryView|
        if of_language(entry, language) {
            score_component(entry.function.score, component) as nat
        } else {
            0
        };
    if count == 0 {
        assert(listed.take(0).map_values(worth) =~= Seq::<nat>::empty());
    } else {
        lemma_component_sum(listed, language, component, (count - 1) as nat);
        let fewer = listed.take(count - 1).map_values(worth);
        assert(listed.take(count as int).map_values(worth) =~= fewer.push(
            worth(listed[count - 1]),
        ));
        total_push(fewer, worth(listed[count - 1]));
    }
}

/// Whether a part of the score is a component, in units.
spec fn reads(part: spec_fn(InputScore) -> nat, component: int) -> bool {
    forall|score: InputScore| #[trigger] part(score) == score_component(score, component)
}

/// What a part of the score comes to in the callables of a language.
pub open spec fn language_units(
    report: InputReport,
    language: Language,
    part: spec_fn(InputScore) -> nat,
) -> nat {
    total(
        report.files@.map_values(
            |file: InputFile|
                if file.language == language {
                    file_units(file, part)
                } else {
                    0
                },
        ),
    )
}

proof fn lemma_zeros(count: nat)
    ensures
        total(Seq::new(count, |index: int| 0nat)) == 0,
    decreases count,
{
    let zeros = Seq::new(count, |index: int| 0nat);
    if count > 0 {
        lemma_zeros((count - 1) as nat);
        assert(zeros.drop_last() =~= Seq::new((count - 1) as nat, |index: int| 0nat));
    }
}

proof fn lemma_report_component(
    report: InputReport,
    language: Option<Language>,
    part: spec_fn(InputScore) -> nat,
    component: int,
)
    requires
        files_by_path(report.files@) == sorted(report.files@, path_precedes()),
        reads(part, component),
        0 <= component < 8,
    ensures
        component_totals(entries(report.files@), language)[component] == clipped(
            match language {
                Some(wanted) => language_units(report, wanted, part),
                None => report_units(report, part),
            },
        ),
{
    let files = report.files@;
    let listed = entries(files);
    let worth = |entry: EntryView|
        if of_language(entry, language) {
            score_component(entry.function.score, component) as nat
        } else {
            0
        };
    let file_worth = |file: InputFile| total(file_entries(file).map_values(worth));
    lemma_component_sum(listed, language, component, listed.len());
    assert(listed.take(listed.len() as int) =~= listed);
    lemma_all_callables(files, worth, file_worth);
    assert forall|file: InputFile| #[trigger] file_worth(file) == match language {
        Some(wanted) => if file.language == wanted {
            file_units(file, part)
        } else {
            0
        },
        None => file_units(file, part),
    } by {
        let counted = match language {
            Some(wanted) => file.language == wanted,
            None => true,
        };
        let read = file.functions@.map_values(|function: InputFunction| part(function.score));
        if counted {
            assert(file_entries(file).map_values(worth) =~= read);
        } else {
            lemma_zeros(file.functions@.len());
            assert(file_entries(file).map_values(worth) =~= Seq::new(
                file.functions@.len(),
                |index: int| 0nat,
            ));
        }
    }
    match language {
        Some(wanted) => {
            assert(files.map_values(file_worth) =~= files.map_values(
                |file: InputFile|
                    if file.language == wanted {
                        file_units(file, part)
                    } else {
                        0
                    },
            ));
        },
        None => {
            assert(files.map_values(file_worth) =~= files.map_values(
                |file: InputFile| file_units(file, part),
            ));
        },
    }
}

proof fn lemma_component_names()
    ensures
        forall|left: int, right: int|
            0 <= left < 8 && 0 <= right < 8 && #[trigger] component_name(left)
                == #[trigger] component_name(right) ==> left == right,
{
    reveal_strlit("boundary");
    reveal_strlit("control decisions");
    reveal_strlit("nesting");
    reveal_strlit("boolean operators");
    reveal_strlit("expression operations");
    reveal_strlit("call sites");
    reveal_strlit("explicit parameters");
    reveal_strlit("match arms");
    assert("boundary"@.len() == 8 && "control decisions"@.len() == 17 && "nesting"@.len() == 7
        && "boolean operators"@.len() == 17 && "expression operations"@.len() == 21
        && "call sites"@.len() == 10 && "explicit parameters"@.len() == 19 && "match arms"@.len()
        == 10);
    assert("control decisions"@[0] == 'c' && "boolean operators"@[0] == 'b');
    assert("call sites"@[0] == 'c' && "match arms"@[0] == 'm');
}

proof fn lemma_shown(
    components: Seq<ComponentDelta>,
    before: Seq<usize>,
    after: Seq<usize>,
    component: int,
    old_units: nat,
    new_units: nat,
)
    requires
        component_views(components) == component_differences(before, after),
        0 <= component < 8,
        before.len() == 8,
        after.len() == 8,
        before[component] == clipped(old_units),
        after[component] == clipped(new_units),
    ensures
        shows(components, component_name(component), old_units, new_units),
{
    let list = component_list(before, after);
    let listed = sorted(list, component_precedes());
    lemma_component_names();
    sorted_length(list, component_precedes());
    assert(components.len() == component_views(components).len());
    lemma_sorted_holds(list, 8, component_precedes(), list[component]);
    assert(list[component] == list[component]);
    assert(listed.contains(list[component]));
    let place = choose|place: int| 0 <= place < listed.len() && listed[place] == list[component];
    assert(component_views(components)[place] == components[place]@);
    assert(components[place].name@ == component_name(component));
    assert forall|index: int|
        0 <= index < components.len() && (#[trigger] components[index]).name@ == component_name(
            component,
        ) implies components[index]@ == list[component] by {
        assert(component_views(components)[index] == components[index]@);
        lemma_sorted_holds(list, 8, component_precedes(), listed[index]);
        assert(listed.contains(listed[index]));
        let from = choose|from: int| 0 <= from < 8 && list[from] == listed[index];
        assert(component_name(from) == component_name(component));
    }
}

/// The components of a comparison are what their parts of the scores come to in
/// all callables of the two reports, each under its own name.
pub proof fn components_are_read_from_the_scores(
    comparison: Comparison,
    before_path: Seq<char>,
    after_path: Seq<char>,
    before: InputReport,
    after: InputReport,
    options: CompareOptions,
)
    requires
        compares(comparison, before_path, after_path, before, after),
        refusal(before, after, options).len() == 0,
    ensures
        comparison.components@.len() == 8,
        forall|part: spec_fn(InputScore) -> nat|
            (forall|score: InputScore| #[trigger] part(score) == score.boundary) ==> shows(
                comparison.components@,
                "boundary"@,
                #[trigger] report_units(before, part),
                report_units(after, part),
            ),
        forall|part: spec_fn(InputScore) -> nat|
            (forall|score: InputScore|
                #![trigger part(score)]
                part(score) == if score.control_decisions * 10 <= usize::MAX {
                    (score.control_decisions * 10) as nat
                } else {
                    usize::MAX as nat
                }) ==> shows(
                comparison.components@,
                "control decisions"@,
                #[trigger] report_units(before, part),
                report_units(after, part),
            ),
        forall|part: spec_fn(InputScore) -> nat|
            (forall|score: InputScore|
                #![trigger part(score)]
                part(score) == if score.nesting_penalty * 10 <= usize::MAX {
                    (score.nesting_penalty * 10) as nat
                } else {
                    usize::MAX as nat
                }) ==> shows(
                comparison.components@,
                "nesting"@,
                #[trigger] report_units(before, part),
                report_units(after, part),
            ),
        forall|part: spec_fn(InputScore) -> nat|
            (forall|score: InputScore| #[trigger] part(score) == score.boolean_operator_units)
                ==> shows(
                comparison.components@,
                "boolean operators"@,
                #[trigger] report_units(before, part),
                report_units(after, part),
            ),
        forall|part: spec_fn(InputScore) -> nat|
            (forall|score: InputScore| #[trigger] part(score) == score.expression_operation_units)
                ==> shows(
                comparison.components@,
                "expression operations"@,
                #[trigger] report_units(before, part),
                report_units(after, part),
            ),
        forall|part: spec_fn(InputScore) -> nat|
            (forall|score: InputScore| #[trigger] part(score) == score.call_site_units) ==> shows(
                comparison.components@,
                "call sites"@,
                #[trigger] report_units(before, part),
                report_units(after, part),
            ),
        forall|part: spec_fn(InputScore) -> nat|
            (forall|score: InputScore| #[trigger] part(score) == score.parameter_units) ==> shows(
                comparison.components@,
                "explicit parameters"@,
                #[trigger] report_units(before, part),
                report_units(after, part),
            ),
        forall|part: spec_fn(InputScore) -> nat|
            (forall|score: InputScore| #[trigger] part(score) == score.match_arm_units) ==> shows(
                comparison.components@,
                "match arms"@,
                #[trigger] report_units(before, part),
                report_units(after, part),
            ),
{
    lemma_compared(before, after, options);
    let left = component_totals(entries(before.files@), None);
    let right = component_totals(entries(after.files@), None);
    sorted_length(component_list(left, right), component_precedes());
    assert(component_views(comparison.components@).len() == 8);
    assert forall|part: spec_fn(InputScore) -> nat, component: int|
        0 <= component < 8 && #[trigger] reads(part, component) implies shows(
        comparison.components@,
        component_name(component),
        report_units(before, part),
        report_units(after, part),
    ) by {
        lemma_report_component(before, None, part, component);
        lemma_report_component(after, None, part, component);
        lemma_shown(
            comparison.components@,
            left,
            right,
            component,
            report_units(before, part),
            report_units(after, part),
        );
    }
    assert forall|part: spec_fn(InputScore) -> nat|
        (forall|score: InputScore| #[trigger] part(score) == score.boundary) implies shows(
        comparison.components@,
        "boundary"@,
        #[trigger] report_units(before, part),
        report_units(after, part),
    ) by {
        assert(reads(part, 0));
    }
    assert forall|part: spec_fn(InputScore) -> nat|
        (forall|score: InputScore|
            #![trigger part(score)]
            part(score) == if score.control_decisions * 10 <= usize::MAX {
                (score.control_decisions * 10) as nat
            } else {
                usize::MAX as nat
            }) implies shows(
        comparison.components@,
        "control decisions"@,
        #[trigger] report_units(before, part),
        report_units(after, part),
    ) by {
        assert(reads(part, 1));
    }
    assert forall|part: spec_fn(InputScore) -> nat|
        (forall|score: InputScore|
            #![trigger part(score)]
            part(score) == if score.nesting_penalty * 10 <= usize::MAX {
                (score.nesting_penalty * 10) as nat
            } else {
                usize::MAX as nat
            }) implies shows(
        comparison.components@,
        "nesting"@,
        #[trigger] report_units(before, part),
        report_units(after, part),
    ) by {
        assert(reads(part, 2));
    }
    assert forall|part: spec_fn(InputScore) -> nat|
        (forall|score: InputScore| #[trigger] part(score) == score.boolean_operator_units) implies shows(
        comparison.components@,
        "boolean operators"@,
        #[trigger] report_units(before, part),
        report_units(after, part),
    ) by {
        assert(reads(part, 3));
    }
    assert forall|part: spec_fn(InputScore) -> nat|
        (forall|score: InputScore| #[trigger] part(score) == score.expression_operation_units) implies shows(
        comparison.components@,
        "expression operations"@,
        #[trigger] report_units(before, part),
        report_units(after, part),
    ) by {
        assert(reads(part, 4));
    }
    assert forall|part: spec_fn(InputScore) -> nat|
        (forall|score: InputScore| #[trigger] part(score) == score.call_site_units) implies shows(
        comparison.components@,
        "call sites"@,
        #[trigger] report_units(before, part),
        report_units(after, part),
    ) by {
        assert(reads(part, 5));
    }
    assert forall|part: spec_fn(InputScore) -> nat|
        (forall|score: InputScore| #[trigger] part(score) == score.parameter_units) implies shows(
        comparison.components@,
        "explicit parameters"@,
        #[trigger] report_units(before, part),
        report_units(after, part),
    ) by {
        assert(reads(part, 6));
    }
    assert forall|part: spec_fn(InputScore) -> nat|
        (forall|score: InputScore| #[trigger] part(score) == score.match_arm_units) implies shows(
        comparison.components@,
        "match arms"@,
        #[trigger] report_units(before, part),
        report_units(after, part),
    ) by {
        assert(reads(part, 7));
    }
}

/// Whether two reports have the same files and callables with the same scores, but
/// for one callable of one file.
pub open spec fn scores_but_one(
    before: InputReport,
    after: InputReport,
    file: int,
    place: int,
) -> bool {
    &&& before.files@.len() == after.files@.len()
    &&& 0 <= file < before.files@.len()
    &&& 0 <= place < before.files@[file].functions@.len()
    &&& forall|index: int|
        0 <= index < before.files@.len() ==> (#[trigger] before.files@[index]).functions@.len()
            == after.files@[index].functions@.len()
    &&& forall|index: int, at: int|
        0 <= index < before.files@.len() && 0 <= at < before.files@[index].functions@.len() && !(
        index == file && at == place) ==> (
        #[trigger] before.files@[index].functions@[at]).score
            == after.files@[index].functions@[at].score
}

/// Where one callable's score alone changes, what a part of the score comes to
/// changes by as much as that part of it does.
pub proof fn one_callable_changes_its_own_parts(
    before: InputReport,
    after: InputReport,
    file: int,
    place: int,
    part: spec_fn(InputScore) -> nat,
)
    requires
        scores_but_one(before, after, file, place),
    ensures
        report_units(after, part) - report_units(before, part) == part(
            after.files@[file].functions@[place].score,
        ) - part(before.files@[file].functions@[place].score),
{
    let read = |function: InputFunction| part(function.score);
    let worth = |file: InputFile| file_units(file, part);
    let old_file = before.files@[file];
    let new_file = after.files@[file];
    assert(new_file.functions@.map_values(read) =~= old_file.functions@.map_values(read).update(
        place,
        read(new_file.functions@[place]),
    )) by {
        assert forall|at: int| 0 <= at < old_file.functions@.len() && at != place implies read(
            #[trigger] new_file.functions@[at],
        ) == read(old_file.functions@[at]) by {
            assert(before.files@[file].functions@[at].score == after.files@[file].functions@[at].score);
        }
    }
    total_update(old_file.functions@.map_values(read), place, read(new_file.functions@[place]));
    assert(after.files@.map_values(worth) =~= before.files@.map_values(worth).update(
        file,
        worth(new_file),
    )) by {
        assert forall|index: int| 0 <= index < before.files@.len() && index != file implies worth(
            #[trigger] after.files@[index],
        ) == worth(before.files@[index]) by {
            let left = before.files@[index];
            let right = after.files@[index];
            assert(left.functions@.len() == right.functions@.len());
            assert forall|at: int| 0 <= at < left.functions@.len() implies read(
                #[trigger] right.functions@[at],
            ) == read(left.functions@[at]) by {
                assert(before.files@[index].functions@[at].score
                    == after.files@[index].functions@[at].score);
            }
            assert(left.functions@.map_values(read) =~= right.functions@.map_values(read));
        }
    }
    total_update(before.files@.map_values(worth), file, worth(new_file));
}

/// The part of a score, in units, that a component is named after.
pub open spec fn part_named(name: Seq<char>) -> spec_fn(InputScore) -> nat {
    |score: InputScore|
        if name == "boundary"@ {
            score.boundary as nat
        } else if name == "control decisions"@ {
            clipped((score.control_decisions * 10) as nat) as nat
        } else if name == "nesting"@ {
            clipped((score.nesting_penalty * 10) as nat) as nat
        } else if name == "boolean operators"@ {
            score.boolean_operator_units as nat
        } else if name == "expression operations"@ {
            score.expression_operation_units as nat
        } else if name == "call sites"@ {
            score.call_site_units as nat
        } else if name == "explicit parameters"@ {
            score.parameter_units as nat
        } else {
            score.match_arm_units as nat
        }
}

proof fn lemma_parts_named(component: int)
    requires
        0 <= component < 8,
    ensures
        reads(part_named(component_name(component)), component),
{
    lemma_component_names();
    assert(component_name(0) == "boundary"@);
    assert(component_name(1) == "control decisions"@);
    assert(component_name(2) == "nesting"@);
    assert(component_name(3) == "boolean operators"@);
    assert(component_name(4) == "expression operations"@);
    assert(component_name(5) == "call sites"@);
    assert(component_name(6) == "explicit parameters"@);
    assert(component_name(7) == "match arms"@);
}

/// A burden that is added up over the files of a language.
pub open spec fn language_sum(
    report: InputReport,
    language: Language,
    part: spec_fn(InputBurden) -> nat,
) -> nat {
    total(
        report.files@.map_values(
            |file: InputFile|
                if file.language == language {
                    part(file.burden)
                } else {
                    0
                },
        ),
    )
}

/// Whether a metric holds what there was and what there is now, with the difference
/// of the two. Nothing is claimed of numbers beyond the range of a difference.
pub open spec fn holds(metric: MetricDelta, before: nat, after: nat) -> bool {
    before <= i64::MAX && after <= i64::MAX && before <= usize::MAX && after <= usize::MAX ==> {
        &&& metric.before == before
        &&& metric.after == after
        &&& metric.delta == after - before
    }
}

proof fn lemma_language_total(
    files: Seq<InputFile>,
    language: Language,
    part: spec_fn(InputBurden) -> usize,
    count: nat,
)
    requires
        count <= files.len(),
    ensures
        language_burden_total(files, language, part, count) == total(
            files.take(count as int).map_values(
                |file: InputFile|
                    if file.language == language {
                        part(file.burden) as nat
                    } else {
                        0
                    },
            ),
        ),
    decreases count,
{
    let worth = |file: InputFile|
        if file.language == language {
            part(file.burden) as nat
        } else {
            0
        };
    if count == 0 {
        assert(files.take(0).map_values(worth) =~= Seq::<nat>::empty());
    } else {
        lemma_language_total(files, language, part, (count - 1) as nat);
        let fewer = files.take(count - 1).map_values(worth);
        assert(files.take(count as int).map_values(worth) =~= fewer.push(worth(files[count - 1])));
        total_push(fewer, worth(files[count - 1]));
    }
}

proof fn lemma_language_sum(
    report: InputReport,
    language: Language,
    part: spec_fn(InputBurden) -> usize,
    wide: spec_fn(InputBurden) -> nat,
)
    requires
        files_by_path(report.files@) == sorted(report.files@, path_precedes()),
        forall|burden: InputBurden| #[trigger] wide(burden) == part(burden),
    ensures
        language_burden_total(
            files_by_path(report.files@),
            language,
            part,
            files_by_path(report.files@).len(),
        ) == language_sum(report, language, wide),
{
    let listed = files_by_path(report.files@);
    let worth = |file: InputFile|
        if file.language == language {
            part(file.burden) as nat
        } else {
            0
        };
    lemma_language_total(listed, language, part, listed.len());
    assert(listed.take(listed.len() as int) =~= listed);
    total_sorted(report.files@, path_precedes(), worth);
    assert(report.files@.map_values(worth) =~= report.files@.map_values(
        |file: InputFile|
            if file.language == language {
                wide(file.burden)
            } else {
                0
            },
    ));
}

proof fn lemma_language_delta(
    delta: LanguageDelta,
    before: InputReport,
    after: InputReport,
)
    requires
        files_by_path(before.files@) == sorted(before.files@, path_precedes()),
        files_by_path(after.files@) == sorted(after.files@, path_precedes()),
        delta.burden == burden_delta(
            language_burden(files_by_path(before.files@), delta.language),
            language_burden(files_by_path(after.files@), delta.language),
        ),
        component_views(delta.components@) == component_differences(
            component_totals(entries(before.files@), Some(delta.language)),
            component_totals(entries(after.files@), Some(delta.language)),
        ),
    ensures
        language_held(delta, before, after),
{
    let language = delta.language;
    lemma_language_sum(
        before,
        language,
        |burden: InputBurden| burden.production,
        |burden: InputBurden| burden.production as nat,
    );
    lemma_language_sum(
        after,
        language,
        |burden: InputBurden| burden.production,
        |burden: InputBurden| burden.production as nat,
    );
    lemma_language_sum(
        before,
        language,
        |burden: InputBurden| burden.test,
        |burden: InputBurden| burden.test as nat,
    );
    lemma_language_sum(
        after,
        language,
        |burden: InputBurden| burden.test,
        |burden: InputBurden| burden.test as nat,
    );
    lemma_language_sum(
        before,
        language,
        |burden: InputBurden| burden.total,
        |burden: InputBurden| burden.total as nat,
    );
    lemma_language_sum(
        after,
        language,
        |burden: InputBurden| burden.total,
        |burden: InputBurden| burden.total as nat,
    );
    let left = component_totals(entries(before.files@), Some(language));
    let right = component_totals(entries(after.files@), Some(language));
    assert forall|component: int| 0 <= component < 8 implies shows(
        delta.components@,
        #[trigger] component_name(component),
        language_units(before, language, part_named(component_name(component))),
        language_units(after, language, part_named(component_name(component))),
    ) by {
        let part = part_named(component_name(component));
        lemma_parts_named(component);
        lemma_report_component(before, Some(language), part, component);
        lemma_report_component(after, Some(language), part, component);
        lemma_shown(
            delta.components@,
            left,
            right,
            component,
            language_units(before, language, part),
            language_units(after, language, part),
        );
    }
    assert(component_name(0) == "boundary"@);
    assert(component_name(1) == "control decisions"@);
    assert(component_name(2) == "nesting"@);
    assert(component_name(3) == "boolean operators"@);
    assert(component_name(4) == "expression operations"@);
    assert(component_name(5) == "call sites"@);
    assert(component_name(6) == "explicit parameters"@);
    assert(component_name(7) == "match arms"@);
}

/// Whether what is said of a language is what its files and their callables come
/// to in the two reports.
pub open spec fn language_held(
    delta: LanguageDelta,
    before: InputReport,
    after: InputReport,
) -> bool {
    let language = delta.language;
    let shown = |name: Seq<char>|
        shows(
            delta.components@,
            name,
            language_units(before, language, part_named(name)),
            language_units(after, language, part_named(name)),
        );
    let production = |burden: InputBurden| burden.production as nat;
    let test = |burden: InputBurden| burden.test as nat;
    let all = |burden: InputBurden| burden.total as nat;
    &&& holds(
        delta.burden.production,
        language_sum(before, language, production),
        language_sum(after, language, production),
    )
    &&& holds(
        delta.burden.test,
        language_sum(before, language, test),
        language_sum(after, language, test),
    )
    &&& holds(
        delta.burden.total,
        language_sum(before, language, all),
        language_sum(after, language, all),
    )
    &&& shown("boundary"@)
    &&& shown("control decisions"@)
    &&& shown("nesting"@)
    &&& shown("boolean operators"@)
    &&& shown("expression operations"@)
    &&& shown("call sites"@)
    &&& shown("explicit parameters"@)
    &&& shown("match arms"@)
}

/// Whether what is said of a language is read off files and callables.
#[verifier::opaque]
spec fn said_of(
    view: LanguageDeltaView,
    old_files: Seq<InputFile>,
    new_files: Seq<InputFile>,
    before: Seq<EntryView>,
    after: Seq<EntryView>,
) -> bool {
    &&& view.burden == burden_delta(
        language_burden(old_files, view.language),
        language_burden(new_files, view.language),
    )
    &&& view.components == component_differences(
        component_totals(before, Some(view.language)),
        component_totals(after, Some(view.language)),
    )
}

/// Whether everything that is said is read off files and callables, and of which
/// of the languages something is said.
spec fn all_said(
    views: Seq<LanguageDeltaView>,
    spoken: spec_fn(Language) -> bool,
    old_files: Seq<InputFile>,
    new_files: Seq<InputFile>,
    before: Seq<EntryView>,
    after: Seq<EntryView>,
) -> bool {
    &&& forall|index: int|
        0 <= index < views.len() ==> said_of(
            #[trigger] views[index],
            old_files,
            new_files,
            before,
            after,
        )
    &&& forall|language: Language| #[trigger]
        spoken(language) <==> exists|index: int|
            0 <= index < views.len() && (#[trigger] views[index]).language == language
}

/// Whether a language is the one that is asked for, and a file has it.
spec fn just(
    old_files: Seq<InputFile>,
    new_files: Seq<InputFile>,
    wanted: Language,
) -> spec_fn(Language) -> bool {
    |other: Language|
        other == wanted && (has_language(old_files, wanted) || has_language(new_files, wanted))
}

proof fn lemma_said(
    old_files: Seq<InputFile>,
    new_files: Seq<InputFile>,
    before: Seq<EntryView>,
    after: Seq<EntryView>,
    language: Language,
)
    ensures
        all_said(
            language_difference(old_files, new_files, before, after, language),
            just(old_files, new_files, language),
            old_files,
            new_files,
            before,
            after,
        ),
{
    reveal(said_of);
    let views = language_difference(old_files, new_files, before, after, language);
    let spoken = just(old_files, new_files, language);
    assert forall|other: Language| #[trigger]
        spoken(other) <==> exists|index: int|
            0 <= index < views.len() && (#[trigger] views[index]).language == other by {
        if spoken(other) {
            assert(views[0].language == other);
        }
    }
}

proof fn lemma_said_both(
    first: Seq<LanguageDeltaView>,
    first_spoken: spec_fn(Language) -> bool,
    second: Seq<LanguageDeltaView>,
    second_spoken: spec_fn(Language) -> bool,
    spoken: spec_fn(Language) -> bool,
    old_files: Seq<InputFile>,
    new_files: Seq<InputFile>,
    before: Seq<EntryView>,
    after: Seq<EntryView>,
)
    requires
        all_said(first, first_spoken, old_files, new_files, before, after),
        all_said(second, second_spoken, old_files, new_files, before, after),
        forall|language: Language| #[trigger]
            spoken(language) == (first_spoken(language) || second_spoken(language)),
    ensures
        all_said(first + second, spoken, old_files, new_files, before, after),
{
    let views = first + second;
    assert forall|index: int| 0 <= index < views.len() implies said_of(
        #[trigger] views[index],
        old_files,
        new_files,
        before,
        after,
    ) by {
        if index < first.len() {
            assert(views[index] == first[index]);
        } else {
            assert(views[index] == second[index - first.len()]);
        }
    }
    assert forall|language: Language| #[trigger]
        spoken(language) <==> exists|index: int|
            0 <= index < views.len() && (#[trigger] views[index]).language == language by {
        if first_spoken(language) {
            let index = choose|index: int|
                0 <= index < first.len() && (#[trigger] first[index]).language == language;
            assert(views[index].language == language);
        }
        if second_spoken(language) {
            let index = choose|index: int|
                0 <= index < second.len() && (#[trigger] second[index]).language == language;
            assert(views[first.len() + index].language == language);
        }
        if exists|index: int| 0 <= index < views.len() && (#[trigger] views[index]).language
            == language {
            let index = choose|index: int|
                0 <= index < views.len() && (#[trigger] views[index]).language == language;
            if index < first.len() {
                assert(first[index].language == language);
            } else {
                assert(second[index - first.len()].language == language);
            }
        }
    }
}

proof fn lemma_all_said(
    old_files: Seq<InputFile>,
    new_files: Seq<InputFile>,
    before: Seq<EntryView>,
    after: Seq<EntryView>,
)
    ensures
        all_said(
            language_differences(old_files, new_files, before, after),
            |language: Language|
                has_language(old_files, language) || has_language(new_files, language),
            old_files,
            new_files,
            before,
            after,
        ),
{
    let there = |language: Language|
        has_language(old_files, language) || has_language(new_files, language);
    let only = |wanted: Language| just(old_files, new_files, wanted);
    let said = |language: Language|
        language_difference(old_files, new_files, before, after, language);
    lemma_said(old_files, new_files, before, after, Language::Rust);
    lemma_said(old_files, new_files, before, after, Language::Python);
    lemma_said(old_files, new_files, before, after, Language::JavaScript);
    lemma_said(old_files, new_files, before, after, Language::TypeScript);
    let two = |language: Language|
        only(Language::Rust)(language) || only(Language::Python)(language);
    let three = |language: Language| two(language) || only(Language::JavaScript)(language);
    lemma_said_both(
        said(Language::Rust),
        only(Language::Rust),
        said(Language::Python),
        only(Language::Python),
        two,
        old_files,
        new_files,
        before,
        after,
    );
    lemma_said_both(
        said(Language::Rust) + said(Language::Python),
        two,
        said(Language::JavaScript),
        only(Language::JavaScript),
        three,
        old_files,
        new_files,
        before,
        after,
    );
    assert forall|language: Language| #[trigger]
        there(language) == (three(language) || only(Language::TypeScript)(language)) by {
        match language {
            Language::Rust => {},
            Language::Python => {},
            Language::JavaScript => {},
            Language::TypeScript => {},
        }
    }
    lemma_said_both(
        said(Language::Rust) + said(Language::Python) + said(Language::JavaScript),
        three,
        said(Language::TypeScript),
        only(Language::TypeScript),
        there,
        old_files,
        new_files,
        before,
        after,
    );
}

proof fn lemma_has_language(files: Seq<InputFile>, language: Language)
    ensures
        has_language(sorted(files, path_precedes()), language) == has_language(files, language),
{
    let listed = sorted(files, path_precedes());
    if has_language(files, language) {
        let index = choose|index: int|
            0 <= index < files.len() && (#[trigger] files[index]).language == language;
        lemma_sorted_holds(files, files.len(), path_precedes(), files[index]);
        let place = choose|place: int| 0 <= place < listed.len() && listed[place] == files[index];
        assert(listed[place].language == language);
    }
    if has_language(listed, language) {
        let place = choose|place: int|
            0 <= place < listed.len() && (#[trigger] listed[place]).language == language;
        lemma_sorted_holds(files, files.len(), path_precedes(), listed[place]);
        assert(listed.contains(listed[place]));
        let index = choose|index: int| 0 <= index < files.len() && files[index] == listed[place];
        assert(files[index].language == language);
    }
}

proof fn lemma_held_at(
    deltas: Seq<LanguageDelta>,
    before: InputReport,
    after: InputReport,
    index: int,
)
    requires
        files_by_path(before.files@) == sorted(before.files@, path_precedes()),
        files_by_path(after.files@) == sorted(after.files@, path_precedes()),
        0 <= index < deltas.len(),
        said_of(
            deltas[index]@,
            files_by_path(before.files@),
            files_by_path(after.files@),
            entries(before.files@),
            entries(after.files@),
        ),
    ensures
        language_held(deltas[index], before, after),
{
    reveal(said_of);
    lemma_language_delta(deltas[index], before, after);
}

proof fn lemma_spoken_of(
    deltas: Seq<LanguageDelta>,
    old_files: Seq<InputFile>,
    new_files: Seq<InputFile>,
    before: Seq<EntryView>,
    after: Seq<EntryView>,
    language: Language,
)
    requires
        language_views(deltas) == language_differences(old_files, new_files, before, after),
    ensures
        (has_language(old_files, language) || has_language(new_files, language)) <==> exists|
            index: int,
        |
            0 <= index < deltas.len() && (#[trigger] deltas[index]).language == language,
{
    let views = language_views(deltas);
    let there = |other: Language| has_language(old_files, other) || has_language(new_files, other);
    lemma_all_said(old_files, new_files, before, after);
    assert(there(language) == (has_language(old_files, language) || has_language(
        new_files,
        language,
    )));
    if there(language) {
        let index = choose|index: int|
            0 <= index < views.len() && (#[trigger] views[index]).language == language;
        assert(deltas[index]@ == views[index]);
        assert(deltas[index].language == language);
    }
    if exists|index: int| 0 <= index < deltas.len() && (#[trigger] deltas[index]).language
        == language {
        let index = choose|index: int|
            0 <= index < deltas.len() && (#[trigger] deltas[index]).language == language;
        assert(views[index] == deltas[index]@);
        assert(views[index].language == language);
    }
}

/// Of every language that a comparison speaks of, it says what its files and their
/// callables come to in the two reports.
pub proof fn languages_are_told_apart(
    comparison: Comparison,
    before_path: Seq<char>,
    after_path: Seq<char>,
    before: InputReport,
    after: InputReport,
    options: CompareOptions,
    index: int,
)
    requires
        compares(comparison, before_path, after_path, before, after),
        refusal(before, after, options).len() == 0,
        0 <= index < comparison.language_deltas@.len(),
    ensures
        language_held(comparison.language_deltas@[index], before, after),
{
    lemma_compared(before, after, options);
    let deltas = comparison.language_deltas@;
    let views = language_views(deltas);
    lemma_all_said(
        files_by_path(before.files@),
        files_by_path(after.files@),
        entries(before.files@),
        entries(after.files@),
    );
    assert(views[index] == deltas[index]@);
    assert(said_of(
        views[index],
        files_by_path(before.files@),
        files_by_path(after.files@),
        entries(before.files@),
        entries(after.files@),
    ));
    lemma_held_at(deltas, before, after, index);
}

/// A comparison speaks of just the languages that a file of either report has.
pub proof fn languages_that_occur_are_spoken_of(
    comparison: Comparison,
    before_path: Seq<char>,
    after_path: Seq<char>,
    before: InputReport,
    after: InputReport,
    options: CompareOptions,
    language: Language,
)
    requires
        compares(comparison, before_path, after_path, before, after),
        refusal(before, after, options).len() == 0,
    ensures
        (exists|place: int|
            0 <= place < before.files@.len() && (#[trigger] before.files@[place]).language
                == language) || (exists|place: int|
            0 <= place < after.files@.len() && (#[trigger] after.files@[place]).language
                == language) <==> exists|index: int|
            0 <= index < comparison.language_deltas@.len() && (
            #[trigger] comparison.language_deltas@[index]).language == language,
{
    lemma_compared(before, after, options);
    lemma_has_language(before.files@, language);
    lemma_has_language(after.files@, language);
    lemma_spoken_of(
        comparison.language_deltas@,
        files_by_path(before.files@),
        files_by_path(after.files@),
        entries(before.files@),
        entries(after.files@),
        language,
    );
}

/// The burdens and macro counts of a comparison are those of the two reports.
pub proof fn burdens_are_those_of_the_reports(
    comparison: Comparison,
    before_path: Seq<char>,
    after_path: Seq<char>,
    before: InputReport,
    after: InputReport,
)
    requires
        compares(comparison, before_path, after_path, before, after),
    ensures
        holds(
            comparison.burden.production,
            before.summary.burden.production as nat,
            after.summary.burden.production as nat,
        ),
        holds(
            comparison.burden.test,
            before.summary.burden.test as nat,
            after.summary.burden.test as nat,
        ),
        holds(
            comparison.burden.total,
            before.summary.burden.total as nat,
            after.summary.burden.total as nat,
        ),
        holds(
            comparison.macro_opacity.invocations,
            before.macro_opacity.invocations as nat,
            after.macro_opacity.invocations as nat,
        ),
        holds(
            comparison.macro_opacity.source_tokens,
            before.macro_opacity.source_tokens as nat,
            after.macro_opacity.source_tokens as nat,
        ),
        holds(
            comparison.macro_opacity.definitions,
            before.macro_opacity.definitions as nat,
            after.macro_opacity.definitions as nat,
        ),
        holds(
            comparison.macro_opacity.definition_tokens,
            before.macro_opacity.definition_tokens as nat,
            after.macro_opacity.definition_tokens as nat,
        ),
        comparison.scope.before_files == before.files@.len() as usize,
        comparison.scope.after_files == after.files@.len() as usize,
        comparison.scope.coverage_complete == (before.coverage.complete && after.coverage.complete),
{
}

}
