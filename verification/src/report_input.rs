//! Reports as a comparison reads them.
//!
//! The analysis model is a serialization contract; keeping the comparison
//! reader separate means adding output fields does not force every report
//! consumer to depend on the in-memory analysis structs.
use vstd::prelude::*;
use crate::model::{AnalysisContract, Language};
use crate::order::{compare_text, referents, sort_references, sorted, text_relation, Relation};

verus! {

#[derive(Debug)]
pub struct InputReport {
    pub tool: String,
    pub version: String,
    pub model: String,
    pub schema_version: u32,
    pub evidence_version: String,
    pub analysis_contract: AnalysisContract,
    pub root: String,
    pub summary: InputSummary,
    pub coverage: InputCoverage,
    pub macro_opacity: InputMacroOpacity,
    pub files: Vec<InputFile>,
    pub errors: Vec<String>,
}

#[derive(Clone, Copy, Debug, Default, PartialEq, Eq, Structural)]
pub struct InputSummary {
    pub burden: InputBurden,
}

#[derive(Clone, Copy, Debug, Default, PartialEq, Eq, Structural)]
pub struct InputBurden {
    pub production: usize,
    pub test: usize,
    pub total: usize,
}

#[derive(Clone, Copy, Debug, Default, PartialEq, Eq, Structural)]
pub struct InputCoverage {
    pub discovered_files: usize,
    pub analyzed_files: usize,
    pub failed_files: usize,
    pub test_files: usize,
    pub complete: bool,
}

#[derive(Clone, Copy, Debug, Default, PartialEq, Eq, Structural)]
pub struct InputMacroOpacity {
    pub invocations: usize,
    pub source_tokens: usize,
    pub definitions: usize,
    pub definition_tokens: usize,
}

#[derive(Debug)]
pub struct InputFile {
    pub path: String,
    pub language: Language,
    pub functions: Vec<InputFunction>,
    pub burden: InputBurden,
    pub macro_opacity: InputMacroOpacity,
}

#[derive(Debug)]
pub struct InputFunction {
    pub snapshot_id: String,
    pub declaration_fingerprint: String,
    pub body_fingerprint: String,
    pub name: String,
    pub kind: String,
    pub category: String,
    pub metrics: InputMetrics,
    pub score: InputScore,
}

#[derive(Clone, Copy, Debug, Default, PartialEq, Eq, Structural)]
pub struct InputMetrics {
    pub code_lines: usize,
    pub statements: usize,
    pub expression_operations: usize,
    pub decisions: usize,
    pub control_decisions: usize,
    pub nesting_penalty: usize,
    pub max_depth: usize,
    pub macro_calls: usize,
    pub branches: usize,
    pub boolean_operators: usize,
    pub match_arms: usize,
    pub loops: usize,
    pub returns: usize,
    pub mutations: usize,
    pub parameters: usize,
    pub explicit_parameters: usize,
    pub call_sites: usize,
    pub closures: usize,
    pub unsafe_blocks: usize,
}

#[derive(Clone, Copy, Debug, Default, PartialEq, Eq, Structural)]
pub struct InputScore {
    pub value: usize,
    pub control_decisions: usize,
    pub nesting_penalty: usize,
    pub boundary: usize,
    pub boolean_operator_units: usize,
    pub call_site_units: usize,
    pub parameter_units: usize,
    pub match_arm_units: usize,
    pub expression_operation_units: usize,
}

/// Whether a file may stand before another: by path.
pub open spec fn path_precedes() -> spec_fn(InputFile, InputFile) -> bool {
    |left: InputFile, right: InputFile|
        text_relation(left.path@, right.path@) != Relation::After
}

fn path_in_order(left: &&InputFile, right: &&InputFile) -> (answer: bool)
    ensures
        answer == path_precedes()(**left, **right),
{
    compare_text(left.path.as_str(), right.path.as_str()) != Relation::After
}

/// The first `count` files of a list sorted by path; of several with one path,
/// the last.
pub open spec fn distinct_upto(files: Seq<InputFile>, count: nat) -> Seq<InputFile>
    decreases count,
{
    if count == 0 {
        Seq::empty()
    } else {
        let earlier = distinct_upto(files, (count - 1) as nat);
        let file = files[count - 1];
        if earlier.len() > 0 && earlier.last().path@ == file.path@ {
            earlier.drop_last().push(file)
        } else {
            earlier.push(file)
        }
    }
}

/// The files of a report by path: in order, each path once, with the file that
/// was listed last for it.
pub open spec fn files_by_path(files: Seq<InputFile>) -> Seq<InputFile> {
    let listed = sorted(files, path_precedes());
    distinct_upto(listed, listed.len())
}

pub fn file_map(files: &Vec<InputFile>) -> (map: Vec<&InputFile>)
    ensures
        referents(map@) == files_by_path(files@),
{
    let listed = sort_references(files, path_in_order, Ghost(path_precedes()));
    let ghost values = referents(listed@);
    let mut map: Vec<&InputFile> = Vec::new();
    let mut index: usize = 0;
    assert(referents(map@) =~= distinct_upto(values, 0));
    while index < listed.len()
        invariant
            index <= listed@.len(),
            values == referents(listed@),
            referents(map@) == distinct_upto(values, index as nat),
        decreases listed@.len() - index,
    {
        let file = listed[index];
        let ghost held = referents(map@);
        if map.len() > 0 && map[map.len() - 1].path == file.path {
            map.pop();
            map.push(file);
            assert(referents(map@) =~= held.drop_last().push(*file));
        } else {
            map.push(file);
            assert(referents(map@) =~= held.push(*file));
        }
        index += 1;
    }
    map
}

/// One path of two reports, with the file that each has for it.
#[derive(Debug)]
pub struct FilePair<'a> {
    pub before: Option<&'a InputFile>,
    pub after: Option<&'a InputFile>,
}

/// The files that two reports have for one path.
pub struct FilePairView {
    pub before: Option<InputFile>,
    pub after: Option<InputFile>,
}

impl<'a> View for FilePair<'a> {
    type V = FilePairView;

    open spec fn view(&self) -> FilePairView {
        FilePairView {
            before: match self.before {
                Some(file) => Some(*file),
                None => None,
            },
            after: match self.after {
                Some(file) => Some(*file),
                None => None,
            },
        }
    }
}

impl FilePairView {
    /// The path that the files share.
    pub open spec fn path(self) -> Seq<char> {
        match self.before {
            Some(file) => file.path@,
            None => self.after->Some_0.path@,
        }
    }
}

/// The pairs of two lists of files sorted by path, from two places on.
pub open spec fn pairs_from(
    before: Seq<InputFile>,
    after: Seq<InputFile>,
    left: int,
    right: int,
) -> Seq<FilePairView>
    decreases before.len() - left + after.len() - right,
{
    if left < 0 || right < 0 || left > before.len() || right > after.len() {
        Seq::empty()
    } else if left < before.len() && (right == after.len() || text_relation(
        before[left].path@,
        after[right].path@,
    ) == Relation::Before) {
        seq![FilePairView { before: Some(before[left]), after: None }] + pairs_from(
            before,
            after,
            left + 1,
            right,
        )
    } else if right < after.len() && (left == before.len() || text_relation(
        before[left].path@,
        after[right].path@,
    ) == Relation::After) {
        seq![FilePairView { before: None, after: Some(after[right]) }] + pairs_from(
            before,
            after,
            left,
            right + 1,
        )
    } else if left < before.len() && right < after.len() {
        seq![FilePairView { before: Some(before[left]), after: Some(after[right]) }] + pairs_from(
            before,
            after,
            left + 1,
            right + 1,
        )
    } else {
        Seq::empty()
    }
}

/// The paths of two reports in order, with the file that each has for it.
pub open spec fn file_pairs(before: InputReport, after: InputReport) -> Seq<FilePairView> {
    pairs_from(files_by_path(before.files@), files_by_path(after.files@), 0, 0)
}

/// The plain contents of pairs.
pub open spec fn pair_views(pairs: Seq<FilePair>) -> Seq<FilePairView> {
    pairs.map_values(|pair: FilePair| pair@)
}

/// Whether every pair holds a file.
pub open spec fn pairs_held(pairs: Seq<FilePairView>) -> bool {
    forall|index: int|
        0 <= index < pairs.len() ==> (#[trigger] pairs[index]).before is Some
            || pairs[index].after is Some
}

pub fn pair_files<'a>(before: &Vec<&'a InputFile>, after: &Vec<&'a InputFile>) -> (pairs: Vec<
    FilePair<'a>,
>)
    ensures
        pair_views(pairs@) == pairs_from(referents(before@), referents(after@), 0, 0),
        pairs_held(pair_views(pairs@)),
{
    let ghost left_files = referents(before@);
    let ghost right_files = referents(after@);
    let mut pairs: Vec<FilePair<'a>> = Vec::new();
    let mut left: usize = 0;
    let mut right: usize = 0;
    assert(pair_views(pairs@) + pairs_from(left_files, right_files, 0, 0) =~= pairs_from(
        left_files,
        right_files,
        0,
        0,
    ));
    while left < before.len() || right < after.len()
        invariant
            left <= before@.len(),
            right <= after@.len(),
            left_files == referents(before@),
            right_files == referents(after@),
            pair_views(pairs@) + pairs_from(left_files, right_files, left as int, right as int)
                == pairs_from(left_files, right_files, 0, 0),
            pairs_held(pair_views(pairs@)),
        decreases before@.len() - left + after@.len() - right,
    {
        let ghost held = pair_views(pairs@);
        let ghost rest = pairs_from(left_files, right_files, left as int, right as int);
        let relation = if right == after.len() {
            Relation::Before
        } else if left == before.len() {
            Relation::After
        } else {
            compare_text(before[left].path.as_str(), after[right].path.as_str())
        };
        match relation {
            Relation::Before => {
                pairs.push(FilePair { before: Some(before[left]), after: None });
                left += 1;
            },
            Relation::After => {
                pairs.push(FilePair { before: None, after: Some(after[right]) });
                right += 1;
            },
            Relation::Same => {
                pairs.push(FilePair { before: Some(before[left]), after: Some(after[right]) });
                left += 1;
                right += 1;
            },
        }
        proof {
            let next = pairs_from(left_files, right_files, left as int, right as int);
            assert(pair_views(pairs@) =~= held.push(pairs@.last()@));
            assert(rest =~= seq![pairs@.last()@] + next);
            assert(pair_views(pairs@) + next =~= held + rest);
        }
    }
    assert(pairs_from(left_files, right_files, left as int, right as int) =~= Seq::<FilePairView>::empty());
    assert(pair_views(pairs@) =~= pair_views(pairs@) + Seq::<FilePairView>::empty());
    pairs
}

}
