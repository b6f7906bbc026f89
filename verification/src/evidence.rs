//! Conservative, source-only evidence for refactoring comparisons.
//!
//! Evidence is deliberately kept outside the structural score. The score is
//! a stable measurement of syntax shape; this module adds relationships that
//! can be useful during review when the source gives enough information to
//! make a bounded claim. It never performs name resolution, type inference,
//! macro expansion, or control-flow analysis.
use vstd::prelude::*;
use vstd::string::StrSliceExecFns;
use crate::call_graph::{build_call_graph, calls_found, covers, edge_precedes};
use crate::duplicates::{
    build_duplicates, duplicate_groups, file_weights, group_views, weight, weights,
};
use crate::model::{
    compare_locations, location_relation, Category, FunctionKind, FunctionReport, Language,
    Location,
};
use crate::order::{
    chained, compare_numbers, compare_text, composes, flipped, number_relation, order_pair,
    order_triple, sorted, text_order, text_order_is_total, text_relation, Relation,
};
use crate::regions::{region_views, regions, total_score};
use crate::sums::{total, total_part, total_push};
use crate::text::characters;

verus! {

/// Stable identity of the serialized evidence contract.
pub const EVIDENCE_CONTRACT: &'static str = "evidence-v1";

/// Maximum number of distinct callable units in a call region.
pub const MAX_REGION_UNITS: usize = 128;

/// Maximum acyclic depth explored for a call region.
pub const MAX_REGION_DEPTH: usize = 32;

/// Maximum number of duplicate groups a text renderer should show by default.
/// JSON retains every group; the omitted count is calculated by the renderer.
pub const DEFAULT_DUPLICATE_RENDER_LIMIT: usize = 20;

#[derive(Clone, Copy, Debug, PartialEq, Eq, Structural)]
pub enum CallResolution {
    Resolved,
    Unresolved,
    Ambiguous,
}

/// Why a call could not be promoted to a local edge, or why a direct call was
/// resolved.  The frontend marks syntactic cases; the common builder marks
/// duplicate or missing definitions after it sees the full file.
#[derive(Clone, Copy, Debug, PartialEq, Eq, Structural)]
pub enum CallResolutionReason {
    DirectLocal,
    Method,
    Import,
    Parameter,
    Assignment,
    Alias,
    Dynamic,
    Qualified,
    DuplicateDefinition,
    Unknown,
}

/// Stable source reference to one reported callable.
#[derive(Debug, PartialEq, Eq, PartialOrd, Ord)]
pub struct CallableRef {
    pub path: String,
    pub language: Language,
    pub category: Category,
    pub name: String,
    pub kind: FunctionKind,
    pub location: Location,
}

/// Counts for every syntactic call site considered by the frontends.
#[derive(Clone, Copy, Debug, Default, PartialEq, Eq, Structural)]
pub struct CallCoverage {
    pub call_sites: usize,
    pub resolved: usize,
    pub unresolved: usize,
    pub ambiguous: usize,
}

/// One source-only call relationship.  `callee` is present only for a unique
/// direct local function match.
#[derive(Debug)]
pub struct CallEdge {
    pub caller: CallableRef,
    pub callee: Option<CallableRef>,
    pub callee_name: String,
    pub resolution: CallResolution,
    pub reason: CallResolutionReason,
    pub location: Location,
}

/// A bounded region rooted at one callable.  `reachable` contains each unit
/// once, and `burden` sums each unit's existing score once as well.
#[derive(Debug)]
pub struct CallRegion {
    pub root: CallableRef,
    pub reachable: Vec<CallableRef>,
    pub unique_units: usize,
    pub burden: usize,
    pub max_depth: usize,
    pub recursive: bool,
    pub truncated: bool,
}

#[derive(Debug)]
pub struct DuplicateOccurrence {
    pub callable: CallableRef,
    pub start: Location,
    pub end: Location,
}

#[derive(Debug)]
pub struct DuplicateGroup {
    pub language: Language,
    pub category: Category,
    pub statement_count: usize,
    pub tokens: usize,
    pub scored_signals: usize,
    pub fingerprint: String,
    pub occurrences: Vec<DuplicateOccurrence>,
}

/// Exact duplicate statement sequences.  All groups are retained in JSON;
/// text output may render a bounded prefix and report how many it omitted.
#[derive(Clone, Debug, Default)]
pub struct DuplicateEvidence {
    pub groups: Vec<DuplicateGroup>,
    pub omitted: usize,
}

/// Local calls and bounded reachability regions.
#[derive(Clone, Debug, Default)]
pub struct CallGraphEvidence {
    pub coverage: CallCoverage,
    pub edges: Vec<CallEdge>,
    pub regions: Vec<CallRegion>,
}

/// All conservative evidence produced for one report.
#[derive(Clone, Debug, Default)]
pub struct Evidence {
    pub contract: String,
    pub call_graph: CallGraphEvidence,
    pub duplicates: DuplicateEvidence,
}

/// Frontends use this identity to attach calls and statements to reports.
#[derive(Debug, PartialEq, Eq, PartialOrd, Ord)]
pub struct LocalCallable {
    pub name: String,
    pub kind: FunctionKind,
    pub category: Category,
    pub location: Location,
}

/// A syntactic call observed inside a callable body.  A direct name is left
/// as `DirectCandidate`; the common builder decides whether its definition is
/// unique.  Other variants are intentionally never resolved.
#[derive(Clone, Debug)]
pub struct FrontendCall {
    pub caller: LocalCallable,
    pub name: String,
    pub reason: CallResolutionReason,
    pub location: Location,
}

/// One statement in one lexical statement list. `sequence` identifies the
/// list, preventing unrelated nested blocks from being treated as adjacent.
#[derive(Clone, Debug)]
pub struct FrontendStatement {
    pub caller: LocalCallable,
    pub sequence: usize,
    pub ordinal: usize,
    pub location: Location,
    pub tokens: Vec<String>,
    pub scored_signals: usize,
}

/// Frontend-owned, source-local evidence before paths and callable metadata
/// are attached by the report analyzer.
#[derive(Clone, Debug, Default)]
pub struct FrontendEvidence {
    pub calls: Vec<FrontendCall>,
    pub statements: Vec<FrontendStatement>,
}

/// Input for the common evidence builder.
#[derive(Clone, Debug)]
pub struct EvidenceFile {
    pub path: String,
    pub language: Language,
    pub functions: Vec<FunctionReport>,
    pub frontend: FrontendEvidence,
}

impl Clone for CallableRef {
    fn clone(&self) -> (copy: Self)
        ensures
            copy == *self,
    {
        CallableRef {
            path: self.path.clone(),
            language: self.language,
            category: self.category,
            name: self.name.clone(),
            kind: self.kind,
            location: self.location,
        }
    }
}

impl Clone for CallEdge {
    fn clone(&self) -> (copy: Self)
        ensures
            copy == *self,
    {
        CallEdge {
            caller: self.caller.clone(),
            callee: match &self.callee {
                Some(callee) => Some(callee.clone()),
                None => None,
            },
            callee_name: self.callee_name.clone(),
            resolution: self.resolution,
            reason: self.reason,
            location: self.location,
        }
    }
}

impl Clone for CallRegion {
    fn clone(&self) -> (copy: Self)
        ensures
            copy@ == self@,
    {
        let reachable = self.reachable.clone();
        assert(reachable@ =~= self.reachable@);
        CallRegion {
            root: self.root.clone(),
            reachable,
            unique_units: self.unique_units,
            burden: self.burden,
            max_depth: self.max_depth,
            recursive: self.recursive,
            truncated: self.truncated,
        }
    }
}

impl Clone for DuplicateOccurrence {
    fn clone(&self) -> (copy: Self)
        ensures
            copy == *self,
    {
        DuplicateOccurrence {
            callable: self.callable.clone(),
            start: self.start,
            end: self.end,
        }
    }
}

impl Clone for DuplicateGroup {
    fn clone(&self) -> (copy: Self)
        ensures
            copy@ == self@,
    {
        let occurrences = self.occurrences.clone();
        assert(occurrences@ =~= self.occurrences@);
        DuplicateGroup {
            language: self.language,
            category: self.category,
            statement_count: self.statement_count,
            tokens: self.tokens,
            scored_signals: self.scored_signals,
            fingerprint: self.fingerprint.clone(),
            occurrences,
        }
    }
}

impl Clone for LocalCallable {
    fn clone(&self) -> (copy: Self)
        ensures
            copy == *self,
    {
        LocalCallable {
            name: self.name.clone(),
            kind: self.kind,
            category: self.category,
            location: self.location,
        }
    }
}

/// The order of callables: by path, language, category, name, kind and place.
pub open spec fn callable_relation(left: CallableRef, right: CallableRef) -> Relation {
    chained(
        text_relation(left.path@, right.path@),
        chained(
            number_relation(left.language.rank(), right.language.rank()),
            chained(
                number_relation(left.category.rank(), right.category.rank()),
                chained(
                    text_relation(left.name@, right.name@),
                    chained(
                        number_relation(left.kind.rank(), right.kind.rank()),
                        location_relation(left.location, right.location),
                    ),
                ),
            ),
        ),
    )
}

pub fn compare_callables(left: &CallableRef, right: &CallableRef) -> (relation: Relation)
    ensures
        relation == callable_relation(*left, *right),
{
    let path = compare_text(left.path.as_str(), right.path.as_str());
    if path != Relation::Same {
        return path;
    }
    let language = compare_numbers(left.language.position(), right.language.position());
    if language != Relation::Same {
        return language;
    }
    let category = compare_numbers(left.category.position(), right.category.position());
    if category != Relation::Same {
        return category;
    }
    let name = compare_text(left.name.as_str(), right.name.as_str());
    if name != Relation::Same {
        return name;
    }
    let kind = compare_numbers(left.kind.position(), right.kind.position());
    if kind != Relation::Same {
        return kind;
    }
    compare_locations(left.location, right.location)
}

/// Callables are ordered consistently, and two that tie agree in every part.
pub proof fn callable_order_is_total(left: CallableRef, middle: CallableRef, right: CallableRef)
    ensures
        callable_relation(left, right) == flipped(callable_relation(right, left)),
        composes(
            callable_relation(left, middle),
            callable_relation(middle, right),
            callable_relation(left, right),
        ),
        (callable_relation(left, right) == Relation::Same) <==> (left.path@ == right.path@
            && left.language == right.language && left.category == right.category && left.name@
            == right.name@ && left.kind == right.kind && left.location == right.location),
{
    text_order_is_total();
    let order = text_order();
    order_pair(order, left.path@, right.path@);
    order_pair(order, left.name@, right.name@);
    order_triple(order, left.path@, middle.path@, right.path@);
    order_triple(order, left.name@, middle.name@, right.name@);
}

/// A reported callable with its score.
#[derive(Debug)]
pub struct CallableNode {
    pub reference: CallableRef,
    pub score: usize,
}

/// The reference to a function that a file reports.
pub open spec fn function_callable(file: EvidenceFile, function: FunctionReport) -> CallableRef {
    CallableRef {
        path: file.path,
        language: file.language,
        category: function.category,
        name: function.name,
        kind: function.kind,
        location: function.location,
    }
}

/// The reference that a frontend's own record stands for in its file.
pub open spec fn local_callable(file: EvidenceFile, local: LocalCallable) -> CallableRef {
    CallableRef {
        path: file.path,
        language: file.language,
        category: local.category,
        name: local.name,
        kind: local.kind,
        location: local.location,
    }
}

fn callable_key(file: &EvidenceFile, function: &FunctionReport) -> (key: CallableRef)
    ensures
        key == function_callable(*file, *function),
{
    CallableRef {
        path: file.path.clone(),
        language: file.language,
        category: function.category,
        name: function.name.clone(),
        kind: function.kind,
        location: function.location,
    }
}

pub(crate) fn local_key(file: &EvidenceFile, local: &LocalCallable) -> (key: CallableRef)
    ensures
        key == local_callable(*file, *local),
{
    CallableRef {
        path: file.path.clone(),
        language: file.language,
        category: local.category,
        name: local.name.clone(),
        kind: local.kind,
        location: local.location,
    }
}

/// How many of the leading nodes stand before `key`, seen from the end.
pub open spec fn node_place(nodes: Seq<CallableNode>, key: CallableRef) -> int
    decreases nodes.len(),
{
    if nodes.len() == 0 {
        0
    } else if callable_relation(nodes.last().reference, key) == Relation::Before {
        nodes.len() as int
    } else {
        node_place(nodes.drop_last(), key)
    }
}

/// The nodes with one more; a node of the same callable is replaced.
pub open spec fn with_node(nodes: Seq<CallableNode>, node: CallableNode) -> Seq<CallableNode> {
    let place = node_place(nodes, node.reference);
    if place < nodes.len() && callable_relation(nodes[place].reference, node.reference)
        == Relation::Same {
        nodes.update(place, node)
    } else {
        nodes.insert(place, node)
    }
}

/// `nodes` with those of the first `count` functions of a file.
pub open spec fn with_functions(
    nodes: Seq<CallableNode>,
    file: EvidenceFile,
    count: nat,
) -> Seq<CallableNode>
    decreases count,
{
    if count == 0 {
        nodes
    } else {
        let function = file.functions@[count - 1];
        with_node(
            with_functions(nodes, file, (count - 1) as nat),
            CallableNode {
                reference: function_callable(file, function),
                score: function.score.value,
            },
        )
    }
}

/// The callables of the first `count` files, each once, in their order.
pub open spec fn nodes_upto(files: Seq<EvidenceFile>, count: nat) -> Seq<CallableNode>
    decreases count,
{
    if count == 0 {
        Seq::empty()
    } else {
        let file = files[count - 1];
        with_functions(nodes_upto(files, (count - 1) as nat), file, file.functions@.len())
    }
}

/// The callables of all files, each once, in their order.
pub open spec fn callables(files: Seq<EvidenceFile>) -> Seq<CallableNode> {
    nodes_upto(files, files.len())
}

/// Whether each node stands before every later one.
pub open spec fn strictly_ordered(nodes: Seq<CallableNode>) -> bool {
    forall|left: int, right: int|
        0 <= left < right < nodes.len() ==> callable_relation(
            #[trigger] nodes[left].reference,
            #[trigger] nodes[right].reference,
        ) == Relation::Before
}

proof fn lemma_node_place(nodes: Seq<CallableNode>, key: CallableRef)
    ensures
        0 <= node_place(nodes, key) <= nodes.len(),
        node_place(nodes, key) > 0 ==> callable_relation(
            nodes[node_place(nodes, key) - 1].reference,
            key,
        ) == Relation::Before,
        forall|index: int|
            node_place(nodes, key) <= index < nodes.len() ==> callable_relation(
                #[trigger] nodes[index].reference,
                key,
            ) != Relation::Before,
    decreases nodes.len(),
{
    if nodes.len() > 0 && callable_relation(nodes.last().reference, key) != Relation::Before {
        lemma_node_place(nodes.drop_last(), key);
        assert forall|index: int|
            node_place(nodes, key) <= index < nodes.len() implies callable_relation(
            #[trigger] nodes[index].reference,
            key,
        ) != Relation::Before by {
            if index < nodes.len() - 1 {
                assert(nodes.drop_last()[index] == nodes[index]);
            }
        }
    }
}

proof fn lemma_with_node_ordered(nodes: Seq<CallableNode>, node: CallableNode)
    requires
        strictly_ordered(nodes),
    ensures
        strictly_ordered(with_node(nodes, node)),
{
    let key = node.reference;
    let place = node_place(nodes, key);
    lemma_node_place(nodes, key);
    let result = with_node(nodes, node);
    let replaced = place < nodes.len() && callable_relation(nodes[place].reference, key)
        == Relation::Same;
    assert forall|left: int, right: int| 0 <= left < right < result.len() implies callable_relation(
        #[trigger] result[left].reference,
        #[trigger] result[right].reference,
    ) == Relation::Before by {
        let before = if left < place || replaced {
            left
        } else {
            left - 1
        };
        let after = if right < place || replaced {
            right
        } else {
            right - 1
        };
        if left == place {
            callable_order_is_total(nodes[place].reference, key, nodes[after].reference);
            callable_order_is_total(key, nodes[place].reference, nodes[after].reference);
            callable_order_is_total(key, key, nodes[after].reference);
        } else if right == place {
            callable_order_is_total(nodes[before].reference, nodes[place - 1].reference, key);
        }
    }
}

proof fn lemma_with_functions_ordered(nodes: Seq<CallableNode>, file: EvidenceFile, count: nat)
    requires
        strictly_ordered(nodes),
    ensures
        strictly_ordered(with_functions(nodes, file, count)),
    decreases count,
{
    if count > 0 {
        lemma_with_functions_ordered(nodes, file, (count - 1) as nat);
        let function = file.functions@[count - 1];
        lemma_with_node_ordered(
            with_functions(nodes, file, (count - 1) as nat),
            CallableNode {
                reference: function_callable(file, function),
                score: function.score.value,
            },
        );
    }
}

proof fn lemma_nodes_ordered(files: Seq<EvidenceFile>, count: nat)
    ensures
        strictly_ordered(nodes_upto(files, count)),
    decreases count,
{
    if count > 0 {
        lemma_nodes_ordered(files, (count - 1) as nat);
        let file = files[count - 1];
        lemma_with_functions_ordered(
            nodes_upto(files, (count - 1) as nat),
            file,
            file.functions@.len(),
        );
    }
}

/// The callables of a report are listed in strict order, so each only once.
pub proof fn callables_are_strictly_ordered(files: Seq<EvidenceFile>)
    ensures
        strictly_ordered(callables(files)),
{
    lemma_nodes_ordered(files, files.len());
}

fn insert_node(nodes: &mut Vec<CallableNode>, node: CallableNode)
    ensures
        final(nodes)@ == with_node(old(nodes)@, node),
{
    let mut place: usize = nodes.len();
    proof {
        assert(nodes@.take(place as int) =~= nodes@);
    }
    while place > 0 && compare_callables(&nodes[place - 1].reference, &node.reference)
        != Relation::Before
        invariant
            place <= nodes@.len(),
            nodes@ == old(nodes)@,
            node_place(nodes@, node.reference) == node_place(
                nodes@.take(place as int),
                node.reference,
            ),
        ensures
            place == node_place(nodes@, node.reference),
        decreases place,
    {
        proof {
            assert(nodes@.take(place as int).drop_last() =~= nodes@.take(place - 1));
        }
        place -= 1;
    }
    if place < nodes.len() && compare_callables(&nodes[place].reference, &node.reference)
        == Relation::Same {
        nodes.set(place, node);
    } else {
        nodes.insert(place, node);
    }
}

pub(crate) fn collect_nodes(files: &[EvidenceFile]) -> (nodes: Vec<CallableNode>)
    ensures
        nodes@ == callables(files@),
{
    let mut nodes: Vec<CallableNode> = Vec::new();
    let mut file_index: usize = 0;
    while file_index < files.len()
        invariant
            file_index <= files@.len(),
            nodes@ == nodes_upto(files@, file_index as nat),
        decreases files@.len() - file_index,
    {
        let file = &files[file_index];
        let mut index: usize = 0;
        while index < file.functions.len()
            invariant
                file_index < files@.len(),
                *file == files@[file_index as int],
                index <= file.functions@.len(),
                nodes@ == with_functions(
                    nodes_upto(files@, file_index as nat),
                    *file,
                    index as nat,
                ),
            decreases file.functions@.len() - index,
        {
            let function = &file.functions[index];
            let reference = callable_key(file, function);
            insert_node(&mut nodes, CallableNode { reference, score: function.score.value });
            index += 1;
        }
        file_index += 1;
    }
    nodes
}

/// Whether a direct call can have a callable of this kind as its target.
pub open spec fn direct_target(kind: FunctionKind) -> bool {
    kind == FunctionKind::Function || kind == FunctionKind::NestedFunction
}

pub(crate) fn direct_target_kind(kind: FunctionKind) -> (answer: bool)
    ensures
        answer == direct_target(kind),
{
    matches!(kind, FunctionKind::Function | FunctionKind::NestedFunction)
}

/// Where the last segment of a qualified name starts, looking no further than
/// `end`.
pub open spec fn leaf_start(name: Seq<char>, end: int) -> int
    decreases end,
{
    if end < 2 {
        0
    } else if name[end - 2] == ':' && name[end - 1] == ':' {
        end
    } else {
        leaf_start(name, end - 1)
    }
}

/// What stands behind the last `::` of a name.
pub open spec fn leaf(name: Seq<char>) -> Seq<char> {
    name.skip(leaf_start(name, name.len() as int))
}

pub(crate) fn leaf_name(name: &str) -> (result: String)
    ensures
        result@ == leaf(name@),
{
    let name_characters = characters(name);
    let mut end: usize = name_characters.len();
    while end >= 2 && !(name_characters[end - 2] == ':' && name_characters[end - 1] == ':')
        invariant
            name_characters@ == name@,
            end <= name@.len(),
            leaf_start(name@, name@.len() as int) == leaf_start(name@, end as int),
        decreases end,
    {
        end -= 1;
    }
    if end < 2 {
        end = 0;
    }
    let result = name.substring_char(end, name_characters.len());
    proof {
        assert(result@ =~= leaf(name@));
    }
    result.to_owned()
}

impl Evidence {
    pub fn current() -> (evidence: Self)
        ensures
            evidence.contract@ == EVIDENCE_CONTRACT@,
            evidence.call_graph.edges@.len() == 0,
            evidence.call_graph.regions@.len() == 0,
            covers(evidence.call_graph.coverage, evidence.call_graph.edges@),
            evidence.duplicates.groups@.len() == 0,
            evidence.duplicates.omitted == 0,
    {
        Evidence {
            contract: EVIDENCE_CONTRACT.to_owned(),
            call_graph: CallGraphEvidence {
                coverage: CallCoverage { call_sites: 0, resolved: 0, unresolved: 0, ambiguous: 0 },
                edges: Vec::new(),
                regions: Vec::new(),
            },
            duplicates: DuplicateEvidence { groups: Vec::new(), omitted: 0 },
        }
    }
}

/// Whether the scores of the callables and the counts of the statements, each
/// added up, fit into a machine word.
pub open spec fn evidence_fits(files: Seq<EvidenceFile>) -> bool {
    &&& total_score(callables(files), callables(files).len()) <= usize::MAX
    &&& total(file_weights(files)) <= usize::MAX
}

/// Whether evidence is that of files.
pub open spec fn builds(evidence: Evidence, files: Seq<EvidenceFile>) -> bool {
    &&& evidence.contract@ == EVIDENCE_CONTRACT@
    &&& evidence.call_graph.edges@ == sorted(calls_found(files).edges, edge_precedes())
    &&& covers(evidence.call_graph.coverage, evidence.call_graph.edges@)
    &&& region_views(evidence.call_graph.regions@) == regions(
        callables(files),
        calls_found(files).targets,
    )
    &&& group_views(evidence.duplicates.groups@) == duplicate_groups(files)
    &&& evidence.duplicates.omitted == 0
}

/// Build all evidence for analyzed files. The builder is deterministic and
/// intentionally bounded only for call-region traversal; duplicate analysis
/// retains every qualifying group for machine-readable review.
pub fn build(files: &[EvidenceFile]) -> (evidence: Evidence)
    requires
        evidence_fits(files@),
    ensures
        builds(evidence, files@),
{
    let nodes = collect_nodes(files);
    let call_graph = build_call_graph(files, &nodes);
    let duplicates = build_duplicates(files, &nodes);
    Evidence { contract: EVIDENCE_CONTRACT.to_owned(), call_graph, duplicates }
}

proof fn lemma_score_grows(nodes: Seq<CallableNode>, fewer: nat, more: nat)
    requires
        fewer <= more,
    ensures
        total_score(nodes, fewer) <= total_score(nodes, more),
    decreases more,
{
    if fewer < more {
        lemma_score_grows(nodes, fewer, (more - 1) as nat);
    }
}

fn scores_fit(nodes: &Vec<CallableNode>) -> (answer: bool)
    ensures
        answer == (total_score(nodes@, nodes@.len()) <= usize::MAX),
{
    let mut sum: usize = 0;
    let mut index: usize = 0;
    while index < nodes.len()
        invariant
            index <= nodes@.len(),
            sum == total_score(nodes@, index as nat),
        decreases nodes@.len() - index,
    {
        match sum.checked_add(nodes[index].score) {
            Some(next) => {
                sum = next;
            },
            None => {
                proof {
                    lemma_score_grows(nodes@, (index + 1) as nat, nodes@.len());
                }
                return false;
            },
        }
        index += 1;
    }
    true
}

/// Adds what the statements of a file weigh to a sum, where it fits.
fn add_weights(sum: usize, statements: &Vec<FrontendStatement>) -> (result: Option<usize>)
    ensures
        match result {
            Some(next) => next == sum + total(weights(statements@)),
            None => sum + total(weights(statements@)) > usize::MAX,
        },
{
    let ghost all = weights(statements@);
    let mut next: usize = sum;
    let mut index: usize = 0;
    assert(all.take(0) =~= Seq::<nat>::empty());
    while index < statements.len()
        invariant
            index <= statements@.len(),
            all == weights(statements@),
            next == sum + total(all.take(index as int)),
        decreases statements@.len() - index,
    {
        let statement = &statements[index];
        proof {
            assert(all.take(index + 1) =~= all.take(index as int).push(weight(*statement)));
            total_push(all.take(index as int), weight(*statement));
            total_part(all, 0, index + 1);
            assert(all.take(index + 1) =~= all.subrange(0, index + 1));
        }
        let counted: usize = match next.checked_add(statement.tokens.len()) {
            Some(counted) => counted,
            None => {
                return None;
            },
        };
        next = match counted.checked_add(statement.scored_signals) {
            Some(whole) => whole,
            None => {
                return None;
            },
        };
        index += 1;
    }
    assert(all.take(index as int) =~= all);
    Some(next)
}

fn weights_fit(files: &[EvidenceFile]) -> (answer: bool)
    ensures
        answer == (total(file_weights(files@)) <= usize::MAX),
{
    let ghost all = file_weights(files@);
    let mut sum: usize = 0;
    let mut index: usize = 0;
    assert(all.take(0) =~= Seq::<nat>::empty());
    while index < files.len()
        invariant
            index <= files@.len(),
            all == file_weights(files@),
            sum == total(all.take(index as int)),
        decreases files@.len() - index,
    {
        let statements = &files[index].frontend.statements;
        proof {
            let added = total(weights(statements@));
            assert(all.take(index + 1) =~= all.take(index as int).push(added));
            total_push(all.take(index as int), added);
            total_part(all, 0, index + 1);
            assert(all.take(index + 1) =~= all.subrange(0, index + 1));
        }
        sum = match add_weights(sum, statements) {
            Some(next) => next,
            None => {
                return false;
            },
        };
        index += 1;
    }
    assert(all.take(index as int) =~= all);
    true
}

/// Whether evidence for files can be built.
pub fn does_evidence_fit(files: &[EvidenceFile]) -> (answer: bool)
    ensures
        answer == evidence_fits(files@),
{
    let nodes = collect_nodes(files);
    scores_fit(&nodes) && weights_fit(files)
}

}
