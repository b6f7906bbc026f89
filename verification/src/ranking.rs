//! The callables of a report in the order of a ranking.
use vstd::prelude::*;
use crate::model::{Category, FileReport, FunctionReport, SortBy};
use crate::order::{
    chained, compare_numbers, compare_text, number_relation, sorted, sorted_mapped, stable_sort,
    text_relation, Relation,
};

verus! {

/// A callable with the file that holds it.
#[derive(Clone, Copy, Debug)]
pub struct RankedFunction<'a> {
    pub file: &'a FileReport,
    pub function: &'a FunctionReport,
}

/// The plain content of a ranked callable.
pub struct RankedView {
    pub file: FileReport,
    pub function: FunctionReport,
}

impl<'a> View for RankedFunction<'a> {
    type V = RankedView;

    open spec fn view(&self) -> RankedView {
        RankedView { file: *self.file, function: *self.function }
    }
}

/// The plain contents of ranked callables.
pub open spec fn ranked_views(functions: Seq<RankedFunction>) -> Seq<RankedView> {
    functions.map_values(|function: RankedFunction| function@)
}

/// Which categories a view shows.
#[derive(Clone, Copy, Debug, PartialEq, Eq, Structural)]
pub struct Selection {
    pub production: bool,
    pub test: bool,
}

impl Selection {
    pub open spec fn takes(self, category: Category) -> bool {
        match category {
            Category::Production => self.production,
            Category::Test => self.test,
        }
    }

    fn accepts(self, category: Category) -> (answer: bool)
        ensures
            answer == self.takes(category),
    {
        match category {
            Category::Production => self.production,
            Category::Test => self.test,
        }
    }
}

/// The selected callables among the first `count` of a file.
pub open spec fn file_functions(file: FileReport, selection: Selection, count: nat) -> Seq<
    RankedView,
>
    decreases count,
{
    if count == 0 {
        Seq::empty()
    } else {
        let earlier = file_functions(file, selection, (count - 1) as nat);
        let function = file.functions@[count - 1];
        if selection.takes(function.category) {
            earlier.push(RankedView { file, function })
        } else {
            earlier
        }
    }
}

/// The selected callables of the first `count` files.
pub open spec fn report_functions(files: Seq<FileReport>, selection: Selection, count: nat) -> Seq<
    RankedView,
>
    decreases count,
{
    if count == 0 {
        Seq::empty()
    } else {
        report_functions(files, selection, (count - 1) as nat) + file_functions(
            files[count - 1],
            selection,
            files[count - 1].functions@.len(),
        )
    }
}

/// What a ranking goes by: the larger comes first.
pub open spec fn rank_key(sort: SortBy, function: FunctionReport) -> usize {
    match sort {
        SortBy::Score => function.score.value,
        SortBy::Depth => function.metrics.max_depth,
        SortBy::Size => function.tokens,
    }
}

/// The order of a ranking: by its key, then by path, place and name.
pub open spec fn rank_relation(sort: SortBy, left: RankedView, right: RankedView) -> Relation {
    chained(
        number_relation(
            rank_key(sort, right.function) as int,
            rank_key(sort, left.function) as int,
        ),
        chained(
            text_relation(left.file.path@, right.file.path@),
            chained(
                number_relation(
                    left.function.location.start.line as int,
                    right.function.location.start.line as int,
                ),
                chained(
                    number_relation(
                        left.function.location.start.column as int,
                        right.function.location.start.column as int,
                    ),
                    text_relation(left.function.name@, right.function.name@),
                ),
            ),
        ),
    )
}

/// Whether a callable may stand before another in a ranking.
pub open spec fn rank_precedes(sort: SortBy) -> spec_fn(RankedView, RankedView) -> bool {
    |left: RankedView, right: RankedView| rank_relation(sort, left, right) != Relation::After
}

/// The selected callables of a report as a ranking lists them.
pub open spec fn ranked(files: Seq<FileReport>, selection: Selection, sort: SortBy) -> Seq<
    RankedView,
> {
    sorted(report_functions(files, selection, files.len()), rank_precedes(sort))
}

fn key_of(sort: SortBy, function: &FunctionReport) -> (key: usize)
    ensures
        key == rank_key(sort, *function),
{
    match sort {
        SortBy::Score => function.score.value,
        SortBy::Depth => function.metrics.max_depth,
        SortBy::Size => function.tokens,
    }
}

fn compare_functions(sort: SortBy, left: &RankedFunction, right: &RankedFunction) -> (relation: Relation)
    ensures
        relation == rank_relation(sort, left@, right@),
{
    let key = compare_numbers(key_of(sort, right.function), key_of(sort, left.function));
    if key != Relation::Same {
        return key;
    }
    let path = compare_text(left.file.path.as_str(), right.file.path.as_str());
    if path != Relation::Same {
        return path;
    }
    let line = compare_numbers(
        left.function.location.start.line,
        right.function.location.start.line,
    );
    if line != Relation::Same {
        return line;
    }
    let column = compare_numbers(
        left.function.location.start.column,
        right.function.location.start.column,
    );
    if column != Relation::Same {
        return column;
    }
    compare_text(left.function.name.as_str(), right.function.name.as_str())
}

fn score_in_order(left: &RankedFunction, right: &RankedFunction) -> (answer: bool)
    ensures
        answer == rank_precedes(SortBy::Score)(left@, right@),
{
    compare_functions(SortBy::Score, left, right) != Relation::After
}

fn depth_in_order(left: &RankedFunction, right: &RankedFunction) -> (answer: bool)
    ensures
        answer == rank_precedes(SortBy::Depth)(left@, right@),
{
    compare_functions(SortBy::Depth, left, right) != Relation::After
}

fn size_in_order(left: &RankedFunction, right: &RankedFunction) -> (answer: bool)
    ensures
        answer == rank_precedes(SortBy::Size)(left@, right@),
{
    compare_functions(SortBy::Size, left, right) != Relation::After
}

fn collect_functions(files: &Vec<FileReport>, selection: Selection) -> (functions: Vec<
    RankedFunction,
>)
    ensures
        ranked_views(functions@) == report_functions(files@, selection, files@.len()),
{
    let mut functions: Vec<RankedFunction> = Vec::new();
    let mut file_index: usize = 0;
    assert(ranked_views(functions@) =~= Seq::<RankedView>::empty());
    while file_index < files.len()
        invariant
            file_index <= files@.len(),
            ranked_views(functions@) == report_functions(files@, selection, file_index as nat),
        decreases files@.len() - file_index,
    {
        let file = &files[file_index];
        let ghost earlier = ranked_views(functions@);
        let mut index: usize = 0;
        assert(ranked_views(functions@) =~= earlier + file_functions(*file, selection, 0));
        while index < file.functions.len()
            invariant
                index <= file.functions@.len(),
                ranked_views(functions@) == earlier + file_functions(
                    *file,
                    selection,
                    index as nat,
                ),
            decreases file.functions@.len() - index,
        {
            let ghost held = ranked_views(functions@);
            let function = &file.functions[index];
            if selection.accepts(function.category) {
                let item = RankedFunction { file, function };
                functions.push(item);
                assert(ranked_views(functions@) =~= held.push(item@));
                assert(ranked_views(functions@) =~= earlier + file_functions(
                    *file,
                    selection,
                    (index + 1) as nat,
                ));
            }
            index += 1;
        }
        file_index += 1;
    }
    functions
}

pub(crate) fn rank_functions(files: &Vec<FileReport>, selection: Selection, sort: SortBy) -> (functions: Vec<
    RankedFunction,
>)
    ensures
        ranked_views(functions@) == ranked(files@, selection, sort),
{
    let functions = collect_functions(files, selection);
    let ghost order = |left: RankedFunction, right: RankedFunction|
        rank_precedes(sort)(left@, right@);
    proof {
        sorted_mapped(
            functions@,
            order,
            |function: RankedFunction| function@,
            rank_precedes(sort),
        );
    }
    match sort {
        SortBy::Score => stable_sort(functions, score_in_order, Ghost(order)),
        SortBy::Depth => stable_sort(functions, depth_in_order, Ghost(order)),
        SortBy::Size => stable_sort(functions, size_in_order, Ghost(order)),
    }
}

}
