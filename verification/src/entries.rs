//! The callables of a report under the keys by which a comparison lists them.
use vstd::prelude::*;
use vstd::string::StringExecFns;
use crate::callable_names::{name_stabilized, no_closures, ClosureNames, ClosureTable};
use crate::model::Language;
use crate::order::{
    chained, compare_text, referents, sorted, sorted_mapped, stable_sort, text_relation, Relation,
};
use crate::report_input::{files_by_path, InputFile, InputFunction};

verus! {

/// A callable of a report with its file and its stable name.
#[derive(Debug)]
pub struct FunctionEntry<'a> {
    pub name: String,
    pub file: &'a InputFile,
    pub function: &'a InputFunction,
}

/// The plain content of an entry.
pub struct EntryView {
    pub path: Seq<char>,
    pub name: Seq<char>,
    pub kind: Seq<char>,
    pub category: Seq<char>,
    pub language: Language,
    pub function: InputFunction,
}

/// The entry of a function under a stable name.
pub open spec fn entry_of(file: InputFile, name: Seq<char>, function: InputFunction) -> EntryView {
    EntryView {
        path: file.path@,
        name,
        kind: function.kind@,
        category: function.category@,
        language: file.language,
        function,
    }
}

impl<'a> View for FunctionEntry<'a> {
    type V = EntryView;

    open spec fn view(&self) -> EntryView {
        entry_of(*self.file, self.name@, *self.function)
    }
}

/// The plain contents of entries.
pub open spec fn entry_views(entries: Seq<FunctionEntry>) -> Seq<EntryView> {
    entries.map_values(|entry: FunctionEntry| entry@)
}

/// Whether two entries have one key.
pub open spec fn same_key(left: EntryView, right: EntryView) -> bool {
    &&& left.path == right.path
    &&& left.name == right.name
    &&& left.kind == right.kind
    &&& left.category == right.category
}

/// The key of an entry as it is shown.
pub open spec fn key_display(entry: EntryView) -> Seq<char> {
    entry.path + "::"@ + entry.name + " ["@ + entry.category + "]"@
}

/// Whether an entry may stand before another: by path, name, kind, category.
pub open spec fn entry_precedes() -> spec_fn(EntryView, EntryView) -> bool {
    |left: EntryView, right: EntryView|
        chained(
            text_relation(left.path, right.path),
            chained(
                text_relation(left.name, right.name),
                chained(
                    text_relation(left.kind, right.kind),
                    text_relation(left.category, right.category),
                ),
            ),
        ) != Relation::After
}

/// The closures named in the first `count` functions of a file.
pub open spec fn closures_upto(file: InputFile, count: nat) -> ClosureNames
    decreases count,
{
    if count == 0 {
        no_closures()
    } else {
        name_stabilized(
            closures_upto(file, (count - 1) as nat),
            file.functions@[count - 1].name@,
        ).known
    }
}

/// The entries of a file, in the order of its functions.
pub open spec fn file_entries(file: InputFile) -> Seq<EntryView> {
    Seq::new(
        file.functions@.len(),
        |index: int|
            entry_of(
                file,
                name_stabilized(
                    closures_upto(file, index as nat),
                    file.functions@[index].name@,
                ).stable,
                file.functions@[index],
            ),
    )
}

/// Whether the key of the entry at `index` stands before it already.
pub open spec fn repeats(entries: Seq<EntryView>, index: int) -> bool {
    exists|earlier: int| 0 <= earlier < index && same_key(#[trigger] entries[earlier], entries[index])
}

/// The first of the first `count` entries whose key stands before it already.
pub open spec fn repeat_upto(entries: Seq<EntryView>, count: nat) -> Option<EntryView>
    decreases count,
{
    if count == 0 {
        None
    } else {
        match repeat_upto(entries, (count - 1) as nat) {
            Some(entry) => Some(entry),
            None => if repeats(entries, count - 1) {
                Some(entries[count - 1])
            } else {
                None
            },
        }
    }
}

/// The entries of the first `count` files.
pub open spec fn entries_upto(files: Seq<InputFile>, count: nat) -> Seq<EntryView>
    decreases count,
{
    if count == 0 {
        Seq::empty()
    } else {
        entries_upto(files, (count - 1) as nat) + file_entries(files[count - 1])
    }
}

/// The first entry in the first `count` files whose key stands before it
/// already.
pub open spec fn files_repeat_upto(files: Seq<InputFile>, count: nat) -> Option<EntryView>
    decreases count,
{
    if count == 0 {
        None
    } else {
        match files_repeat_upto(files, (count - 1) as nat) {
            Some(entry) => Some(entry),
            None => repeat_upto(
                file_entries(files[count - 1]),
                file_entries(files[count - 1]).len(),
            ),
        }
    }
}

/// The first callable that a report lists twice.
pub open spec fn repeated_entry(files: Seq<InputFile>) -> Option<EntryView> {
    files_repeat_upto(files_by_path(files), files_by_path(files).len())
}

/// The callables of a report in the order of their keys.
pub open spec fn entries(files: Seq<InputFile>) -> Seq<EntryView> {
    sorted(entries_upto(files_by_path(files), files_by_path(files).len()), entry_precedes())
}

/// What a comparison says of a callable that a report lists twice.
pub open spec fn repeat_issue(label: Seq<char>, entry: EntryView) -> Seq<char> {
    label + " report lists function "@ + key_display(entry) + " more than once in "@ + entry.path
}

fn entry_in_order(left: &FunctionEntry, right: &FunctionEntry) -> (answer: bool)
    ensures
        answer == entry_precedes()(left@, right@),
{
    let path = compare_text(left.file.path.as_str(), right.file.path.as_str());
    if path != Relation::Same {
        return path == Relation::Before;
    }
    let name = compare_text(left.name.as_str(), right.name.as_str());
    if name != Relation::Same {
        return name == Relation::Before;
    }
    let kind = compare_text(left.function.kind.as_str(), right.function.kind.as_str());
    if kind != Relation::Same {
        return kind == Relation::Before;
    }
    compare_text(left.function.category.as_str(), right.function.category.as_str())
        != Relation::After
}

pub(crate) fn has_same_key(left: &FunctionEntry, right: &FunctionEntry) -> (answer: bool)
    ensures
        answer == same_key(left@, right@),
{
    left.name == right.name && left.function.kind == right.function.kind && left.function.category
        == right.function.category && left.file.path == right.file.path
}

fn show_key(entry: &FunctionEntry) -> (text: String)
    ensures
        text@ == key_display(entry@),
{
    let mut text = entry.file.path.clone();
    text.append("::");
    text.append(entry.name.as_str());
    text.append(" [");
    text.append(entry.function.category.as_str());
    text.append("]");
    text
}

proof fn lemma_repeat_stays(entries: Seq<EntryView>, count: nat, total: nat)
    requires
        count <= total,
        repeat_upto(entries, count) is Some,
    ensures
        repeat_upto(entries, total) == repeat_upto(entries, count),
    decreases total,
{
    if count < total {
        lemma_repeat_stays(entries, count, (total - 1) as nat);
    }
}

proof fn lemma_files_repeat_stays(files: Seq<InputFile>, count: nat, total: nat)
    requires
        count <= total,
        files_repeat_upto(files, count) is Some,
    ensures
        files_repeat_upto(files, total) == files_repeat_upto(files, count),
    decreases total,
{
    if count < total {
        lemma_files_repeat_stays(files, count, (total - 1) as nat);
    }
}

/// Appends the entries of a file. Stops at an entry whose key stands before it
/// already, and says what is wrong.
fn push_entries<'a>(
    label: &str,
    file: &'a InputFile,
    listed: &mut Vec<FunctionEntry<'a>>,
) -> (result: Result<(), String>)
    ensures
        result is Ok <==> repeat_upto(file_entries(*file), file_entries(*file).len()) is None,
        result is Ok ==> entry_views(final(listed)@) == entry_views(old(listed)@) + file_entries(
            *file,
        ),
        result matches Err(issue) ==> issue@ == repeat_issue(
            label@,
            repeat_upto(file_entries(*file), file_entries(*file).len())->Some_0,
        ),
{
    let ghost own = file_entries(*file);
    let ghost held = entry_views(listed@);
    let first: usize = listed.len();
    let mut table = ClosureTable::new();
    let mut index: usize = 0;
    assert(entry_views(listed@) =~= held + own.take(0));
    while index < file.functions.len()
        invariant
            index <= file.functions@.len(),
            own == file_entries(*file),
            first == held.len(),
            table.well_formed(),
            table@ == closures_upto(*file, index as nat),
            entry_views(listed@) == held + own.take(index as int),
            repeat_upto(own, index as nat) is None,
        decreases file.functions@.len() - index,
    {
        let function = &file.functions[index];
        let name = table.stable_callable_name(function.name.as_str());
        let entry = FunctionEntry { name, file, function };
        assert(entry@ == own[index as int]);
        assert(entry_views(listed@).len() == listed@.len());
        let mut place: usize = first;
        while place < listed.len()
            invariant
                first <= place <= listed@.len(),
                index < file.functions@.len(),
                own == file_entries(*file),
                first == held.len(),
                listed@.len() == first + index,
                entry_views(listed@) == held + own.take(index as int),
                entry@ == own[index as int],
                repeat_upto(own, index as nat) is None,
                forall|earlier: int|
                    0 <= earlier < place - first ==> !same_key(
                        #[trigger] own[earlier],
                        own[index as int],
                    ),
            decreases listed@.len() - place,
        {
            assert(entry_views(listed@)[place as int] == own[place - first]);
            if has_same_key(&listed[place], &entry) {
                assert(same_key(own[place - first], own[index as int]));
                assert(repeats(own, index as int));
                proof {
                    lemma_repeat_stays(own, (index + 1) as nat, own.len());
                }
                let mut issue = label.to_owned();
                issue.append(" report lists function ");
                issue.append(show_key(&entry).as_str());
                issue.append(" more than once in ");
                issue.append(file.path.as_str());
                return Err(issue);
            }
            place += 1;
        }
        let ghost before = entry_views(listed@);
        listed.push(entry);
        assert(entry_views(listed@) =~= before.push(own[index as int]));
        assert(own.take(index + 1) =~= own.take(index as int).push(own[index as int]));
        assert(entry_views(listed@) =~= held + own.take(index + 1));
        index += 1;
    }
    assert(own.take(own.len() as int) =~= own);
    Ok(())
}

/// The callables of a report in the order of their keys, or what is wrong with
/// them. `files` are the files of the report by path.
pub(crate) fn function_map<'a>(label: &str, files: &Vec<&'a InputFile>) -> (result: Result<
    Vec<FunctionEntry<'a>>,
    String,
>)
    ensures
        result is Ok <==> files_repeat_upto(referents(files@), files@.len()) is None,
        result matches Ok(listed) ==> entry_views(listed@) == sorted(
            entries_upto(referents(files@), files@.len()),
            entry_precedes(),
        ),
        result matches Err(issue) ==> issue@ == repeat_issue(
            label@,
            files_repeat_upto(referents(files@), files@.len())->Some_0,
        ),
{
    let ghost values = referents(files@);
    let mut listed: Vec<FunctionEntry<'a>> = Vec::new();
    let mut index: usize = 0;
    assert(entry_views(listed@) =~= entries_upto(values, 0));
    while index < files.len()
        invariant
            index <= files@.len(),
            values == referents(files@),
            files_repeat_upto(values, index as nat) is None,
            entry_views(listed@) == entries_upto(values, index as nat),
        decreases files@.len() - index,
    {
        let file = files[index];
        assert(values[index as int] == *file);
        if let Err(issue) = push_entries(label, file, &mut listed) {
            proof {
                lemma_files_repeat_stays(values, (index + 1) as nat, values.len());
            }
            return Err(issue);
        }
        index += 1;
    }
    let ghost order = |left: FunctionEntry<'a>, right: FunctionEntry<'a>|
        entry_precedes()(left@, right@);
    proof {
        sorted_mapped(listed@, order, |entry: FunctionEntry<'a>| entry@, entry_precedes());
    }
    let sorted_entries = stable_sort(listed, entry_in_order, Ghost(order));
    proof {
        assert(entry_views(sorted_entries@) =~= sorted_entries@.map_values(
            |entry: FunctionEntry<'a>| entry@,
        ));
    }
    Ok(sorted_entries)
}

}
