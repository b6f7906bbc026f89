//! Calls and statements of Python source.
//!
//! Name resolution remains intentionally conservative: only a unique direct
//! local function name can become a resolved edge in the call graph.
use vstd::prelude::*;
use vstd::string::StrSliceExecFns;
use crate::evidence::CallResolutionReason;
use crate::frontend_evidence::{
    holder_views, push_holder, push_site, site_views, CallSite, CallSiteView, Holder, HolderView,
    StatementSite,
};
use crate::known_names::{
    direct_reason, find_reason, known_names, push_text, ImportTable, KnownNames, NameTable,
};
use crate::model::FunctionKind;
use crate::node_signals::links;
use crate::python_syntax::{
    comprehension, is_comprehension, list_python_steps, push_plain, python_steps,
};
use crate::python_units::{
    label_lambda, lambda_label, name_of_node, name_of_parameter, node_name, parameter_list,
    parameter_name,
};
use crate::spans::{LineSpan, LineTable};
use crate::sums::clipped;
use crate::syntax::{count_named, find_named, first_named, named_count, SyntaxNode};
use crate::text::{characters, same_text, texts};
use crate::units::{node_range, qualified, qualified_name, with_scope, ByteRange};
use crate::walk::{at, plain_steps, Step};

verus! {

/// Whether a node is a definition of its own.
pub open spec fn definition(node: SyntaxNode) -> bool {
    node.named("StmtFunctionDef"@) || node.named("StmtClassDef"@)
}

fn is_definition(node: &SyntaxNode) -> (answer: bool)
    ensures
        answer == definition(*node),
{
    node.is("StmtFunctionDef") || node.is("StmtClassDef")
}

/// Whether what a node holds belongs to another unit.
pub open spec fn set_apart(node: SyntaxNode) -> bool {
    definition(node) || node.named("ExprLambda"@)
}

fn is_set_apart(node: &SyntaxNode) -> (answer: bool)
    ensures
        answer == set_apart(*node),
{
    is_definition(node) || node.is("ExprLambda")
}

/// The part of a dotted name before its first dot, looked for from `index` on.
pub open spec fn first_dot(name: Seq<char>, index: int) -> int
    decreases name.len() - index,
{
    if index >= name.len() || name[index] == '.' {
        index
    } else {
        first_dot(name, index + 1)
    }
}

/// What an import of a dotted name binds.
pub open spec fn top_name(name: Seq<char>) -> Seq<char> {
    name.take(first_dot(name, 0))
}

fn take_top_name(name: &str) -> (result: String)
    ensures
        result@ == top_name(name@),
{
    let all = characters(name);
    let mut index: usize = 0;
    while index < all.len() && all[index] != '.'
        invariant
            index <= all@.len(),
            all@ == name@,
            first_dot(name@, 0) == first_dot(name@, index as int),
        decreases all@.len() - index,
    {
        index += 1;
    }
    let result = name.substring_char(0, index);
    assert(result@ =~= top_name(name@));
    result.to_owned()
}

/// The names that one imported name binds: as an alias, or as itself.
pub open spec fn alias_names(alias: SyntaxNode, whole_modules: bool, aliased: bool) -> Seq<Seq<char>> {
    let parts = alias.children@;
    if parts.len() == 0 {
        Seq::empty()
    } else if parts.len() >= 2 {
        if aliased {
            seq![parts[1].text@]
        } else {
            Seq::empty()
        }
    } else if aliased {
        Seq::empty()
    } else if whole_modules {
        seq![top_name(parts[0].text@)]
    } else if parts[0].text@ == "*"@ {
        Seq::empty()
    } else {
        seq![parts[0].text@]
    }
}

/// The names that the first `count` parts of an import bind.
pub open spec fn import_list(
    parts: Seq<SyntaxNode>,
    whole_modules: bool,
    aliased: bool,
    count: nat,
) -> Seq<Seq<char>>
    decreases count,
{
    if count == 0 {
        Seq::empty()
    } else {
        let earlier = import_list(parts, whole_modules, aliased, (count - 1) as nat);
        if parts[count - 1].named("Alias"@) {
            earlier + alias_names(parts[count - 1], whole_modules, aliased)
        } else {
            earlier
        }
    }
}

/// The names that a statement itself imports.
pub open spec fn own_imports(node: SyntaxNode, aliased: bool) -> Seq<Seq<char>> {
    if node.named("StmtImport"@) {
        import_list(node.children@, true, aliased, node.children@.len())
    } else if node.named("StmtImportFrom"@) {
        import_list(node.children@, false, aliased, node.children@.len())
    } else {
        Seq::empty()
    }
}

/// The names that are imported anywhere under a node.
pub open spec fn imports(node: SyntaxNode, aliased: bool) -> Seq<Seq<char>>
    decreases node, node.children@.len() + 1,
{
    own_imports(node, aliased) + part_imports(node, aliased, node.children@.len())
}

/// The names that are imported under the first `count` parts of a node.
pub open spec fn part_imports(node: SyntaxNode, aliased: bool, count: nat) -> Seq<Seq<char>>
    decreases node, count,
{
    if count == 0 || count > node.children@.len() {
        Seq::empty()
    } else {
        part_imports(node, aliased, (count - 1) as nat) + imports(
            node.children@[count - 1],
            aliased,
        )
    }
}

fn push_alias(alias: &SyntaxNode, whole_modules: bool, aliased: bool, list: &mut Vec<String>)
    ensures
        texts(final(list)@) == texts(old(list)@) + alias_names(*alias, whole_modules, aliased),
{
    let ghost held = texts(list@);
    let parts = &alias.children;
    if parts.len() >= 2 {
        if aliased {
            push_text(list, parts[1].text.clone());
        }
    } else if parts.len() == 1 && !aliased {
        if whole_modules {
            push_text(list, take_top_name(parts[0].text.as_str()));
        } else if !same_text(parts[0].text.as_str(), "*") {
            push_text(list, parts[0].text.clone());
        }
    }
    assert(texts(list@) =~= held + alias_names(*alias, whole_modules, aliased));
}

fn push_own_imports(node: &SyntaxNode, aliased: bool, list: &mut Vec<String>)
    ensures
        texts(final(list)@) == texts(old(list)@) + own_imports(*node, aliased),
{
    let ghost held = texts(list@);
    let whole_modules: bool = node.is("StmtImport");
    if !whole_modules && !node.is("StmtImportFrom") {
        assert(texts(list@) =~= held + own_imports(*node, aliased));
        return ;
    }
    let parts = &node.children;
    let mut index: usize = 0;
    assert(texts(list@) =~= held + import_list(parts@, whole_modules, aliased, 0));
    while index < parts.len()
        invariant
            index <= parts@.len(),
            texts(list@) == held + import_list(parts@, whole_modules, aliased, index as nat),
        decreases parts@.len() - index,
    {
        if parts[index].is("Alias") {
            push_alias(&parts[index], whole_modules, aliased, list);
            assert(texts(list@) =~= held + import_list(
                parts@,
                whole_modules,
                aliased,
                (index + 1) as nat,
            ));
        }
        index += 1;
    }
}

fn collect_imports(node: &SyntaxNode, aliased: bool, list: &mut Vec<String>)
    ensures
        texts(final(list)@) == texts(old(list)@) + imports(*node, aliased),
    decreases node,
{
    let ghost held = texts(list@);
    push_own_imports(node, aliased, list);
    let ghost own = texts(list@);
    let mut index: usize = 0;
    assert(texts(list@) =~= own + part_imports(*node, aliased, 0));
    while index < node.children.len()
        invariant
            index <= node.children@.len(),
            texts(list@) == own + part_imports(*node, aliased, index as nat),
        decreases node.children@.len() - index,
    {
        collect_imports(&node.children[index], aliased, list);
        assert(texts(list@) =~= own + part_imports(*node, aliased, (index + 1) as nat));
        index += 1;
    }
    assert(texts(list@) =~= held + imports(*node, aliased));
}

/// The names that an assignment target binds.
pub open spec fn target_names(node: SyntaxNode) -> Seq<Seq<char>>
    decreases node, node.children@.len() + 1,
{
    if node.named("ExprName"@) {
        seq![node.text@]
    } else if node.named("ExprTuple"@) || node.named("ExprList"@) {
        part_targets(node, node.children@.len())
    } else {
        Seq::empty()
    }
}

/// The names that the first `count` parts of a target bind.
pub open spec fn part_targets(node: SyntaxNode, count: nat) -> Seq<Seq<char>>
    decreases node, count,
{
    if count == 0 || count > node.children@.len() {
        Seq::empty()
    } else {
        part_targets(node, (count - 1) as nat) + target_names(node.children@[count - 1])
    }
}

fn push_targets(node: &SyntaxNode, list: &mut Vec<String>)
    ensures
        texts(final(list)@) == texts(old(list)@) + target_names(*node),
    decreases node,
{
    let ghost held = texts(list@);
    if node.is("ExprName") {
        push_text(list, node.text.clone());
        assert(texts(list@) =~= held + target_names(*node));
    } else if node.is("ExprTuple") || node.is("ExprList") {
        let mut index: usize = 0;
        assert(texts(list@) =~= held + part_targets(*node, 0));
        while index < node.children.len()
            invariant
                index <= node.children@.len(),
                texts(list@) == held + part_targets(*node, index as nat),
            decreases node.children@.len() - index,
        {
            push_targets(&node.children[index], list);
            assert(texts(list@) =~= held + part_targets(*node, (index + 1) as nat));
            index += 1;
        }
    } else {
        assert(texts(list@) =~= held + target_names(*node));
    }
}

/// The names that the first `count` of some targets bind.
pub open spec fn targets_upto(parts: Seq<SyntaxNode>, count: nat) -> Seq<Seq<char>>
    decreases count,
{
    if count == 0 {
        Seq::empty()
    } else {
        targets_upto(parts, (count - 1) as nat) + target_names(parts[count - 1])
    }
}

/// The names that a node itself binds: those that become aliases of another
/// name, or the others.
pub open spec fn own_bindings(node: SyntaxNode, aliased: bool) -> Seq<Seq<char>> {
    let parts = node.children@;
    if parts.len() == 0 {
        Seq::empty()
    } else if node.named("StmtAssign"@) {
        if parts.last().named("ExprName"@) == aliased {
            targets_upto(parts, (parts.len() - 1) as nat)
        } else {
            Seq::empty()
        }
    } else if !aliased && (node.named("StmtAnnAssign"@) || node.named("StmtAugAssign"@)
        || node.named("ExprNamed"@)) {
        target_names(parts[0])
    } else {
        Seq::empty()
    }
}

/// The names that are bound under a node, outside of other units.
pub open spec fn bindings(node: SyntaxNode, aliased: bool) -> Seq<Seq<char>>
    decreases node, node.children@.len() + 1,
{
    if set_apart(node) {
        Seq::empty()
    } else {
        own_bindings(node, aliased) + part_bindings(node, aliased, node.children@.len())
    }
}

/// The names that are bound under the first `count` parts of a node.
pub open spec fn part_bindings(node: SyntaxNode, aliased: bool, count: nat) -> Seq<Seq<char>>
    decreases node, count,
{
    if count == 0 || count > node.children@.len() {
        Seq::empty()
    } else {
        part_bindings(node, aliased, (count - 1) as nat) + bindings(
            node.children@[count - 1],
            aliased,
        )
    }
}

fn push_own_bindings(node: &SyntaxNode, aliased: bool, list: &mut Vec<String>)
    ensures
        texts(final(list)@) == texts(old(list)@) + own_bindings(*node, aliased),
{
    let ghost held = texts(list@);
    let parts = &node.children;
    if parts.len() > 0 {
        if node.is("StmtAssign") {
            if parts[parts.len() - 1].is("ExprName") == aliased {
                let mut index: usize = 0;
                assert(texts(list@) =~= held + targets_upto(parts@, 0));
                while index < parts.len() - 1
                    invariant
                        parts@.len() > 0,
                        index <= parts@.len() - 1,
                        texts(list@) == held + targets_upto(parts@, index as nat),
                    decreases parts@.len() - index,
                {
                    push_targets(&parts[index], list);
                    assert(texts(list@) =~= held + targets_upto(parts@, (index + 1) as nat));
                    index += 1;
                }
            }
        } else if !aliased && (node.is("StmtAnnAssign") || node.is("StmtAugAssign") || node.is(
            "ExprNamed",
        )) {
            push_targets(&parts[0], list);
        }
    }
    assert(texts(list@) =~= held + own_bindings(*node, aliased));
}

fn collect_bindings(node: &SyntaxNode, aliased: bool, list: &mut Vec<String>)
    ensures
        texts(final(list)@) == texts(old(list)@) + bindings(*node, aliased),
    decreases node,
{
    let ghost held = texts(list@);
    if is_set_apart(node) {
        assert(texts(list@) =~= held + bindings(*node, aliased));
        return ;
    }
    push_own_bindings(node, aliased, list);
    let ghost own = texts(list@);
    let mut index: usize = 0;
    assert(texts(list@) =~= own + part_bindings(*node, aliased, 0));
    while index < node.children.len()
        invariant
            index <= node.children@.len(),
            texts(list@) == own + part_bindings(*node, aliased, index as nat),
        decreases node.children@.len() - index,
    {
        collect_bindings(&node.children[index], aliased, list);
        assert(texts(list@) =~= own + part_bindings(*node, aliased, (index + 1) as nat));
        index += 1;
    }
    assert(texts(list@) =~= held + bindings(*node, aliased));
}

/// The call that a node itself is.
pub open spec fn own_calls(node: SyntaxNode, known: KnownNames) -> Seq<CallSiteView> {
    if !node.named("ExprCall"@) || node.children@.len() == 0 {
        Seq::empty()
    } else {
        let callee = node.children@[0];
        let range = node_range(node);
        seq![
            if callee.named("ExprName"@) {
                CallSiteView {
                    name: callee.text@,
                    reason: direct_reason(known, callee.text@),
                    range,
                }
            } else if callee.named("ExprAttribute"@) {
                CallSiteView {
                    name: node_name(callee),
                    reason: CallResolutionReason::Method,
                    range,
                }
            } else {
                CallSiteView {
                    name: "<dynamic>"@,
                    reason: CallResolutionReason::Dynamic,
                    range,
                }
            },
        ]
    }
}

/// Whether the parts of a node are evaluated from the last to the first.
pub open spec fn backwards(node: SyntaxNode) -> bool {
    ||| node.named("StmtTypeAlias"@)
    ||| node.named("StmtAugAssign"@)
    ||| node.named("StmtAnnAssign"@)
    ||| node.named("ExprNamed"@)
}

fn is_backwards(node: &SyntaxNode) -> (answer: bool)
    ensures
        answer == backwards(*node),
{
    node.is("StmtTypeAlias") || node.is("StmtAugAssign") || node.is("StmtAnnAssign") || node.is(
        "ExprNamed",
    )
}

/// Steps to the parts of a node in the order in which they are evaluated.
pub open spec fn evaluation(node: SyntaxNode) -> Seq<Step> {
    let count = node.children@.len();
    if backwards(node) {
        Seq::new(count, |index: int| at(count - 1 - index, 0))
    } else {
        python_steps(node, 0, false, false)
    }
}

fn list_evaluation(node: &SyntaxNode) -> (list: Vec<Step>)
    ensures
        list@ == evaluation(*node),
{
    if !is_backwards(node) {
        return list_python_steps(node, 0, false, false);
    }
    let count: usize = node.children.len();
    let mut list: Vec<Step> = Vec::new();
    while list.len() < count
        invariant
            list@.len() <= count,
            count == node.children@.len(),
            backwards(*node),
            list@ =~= evaluation(*node).take(list@.len() as int),
        decreases count - list@.len(),
    {
        let child: usize = count - 1 - list.len();
        list.push(Step { child, depth: 0, branch: false, quiet: false });
    }
    assert(list@ =~= evaluation(*node));
    list
}

/// The calls under a node, outside of other units, as they are evaluated.
pub open spec fn calls(node: SyntaxNode, known: KnownNames) -> Seq<CallSiteView>
    decreases node, evaluation(node).len() + 1,
{
    if set_apart(node) {
        Seq::empty()
    } else {
        own_calls(node, known) + part_calls(node, known, evaluation(node), evaluation(node).len())
    }
}

/// The calls under the parts of a node that the first `count` steps go to.
pub open spec fn part_calls(
    node: SyntaxNode,
    known: KnownNames,
    list: Seq<Step>,
    count: nat,
) -> Seq<CallSiteView>
    decreases node, count,
{
    if count == 0 {
        Seq::empty()
    } else {
        let earlier = part_calls(node, known, list, (count - 1) as nat);
        let child = list[count - 1].child;
        if child < node.children@.len() {
            earlier + calls(node.children@[child as int], known)
        } else {
            earlier
        }
    }
}

fn push_own_call(
    node: &SyntaxNode,
    own: &NameTable,
    imported: &ImportTable,
    sites: &mut Vec<CallSite>,
)
    ensures
        site_views(final(sites)@) == site_views(old(sites)@) + own_calls(
            *node,
            known_names(*own, *imported),
        ),
{
    let ghost held = site_views(sites@);
    if node.is("ExprCall") && node.children.len() > 0 {
        let callee = &node.children[0];
        let range = ByteRange { start: node.start, end: node.end };
        if callee.is("ExprName") {
            let reason = find_reason(own, imported, callee.text.as_str());
            push_site(sites, callee.text.clone(), reason, range);
        } else if callee.is("ExprAttribute") {
            let name = name_of_node(callee).to_owned();
            push_site(sites, name, CallResolutionReason::Method, range);
        } else {
            push_site(sites, "<dynamic>".to_owned(), CallResolutionReason::Dynamic, range);
        }
    }
    assert(site_views(sites@) =~= held + own_calls(*node, known_names(*own, *imported)));
}

fn collect_calls(
    node: &SyntaxNode,
    own: &NameTable,
    imported: &ImportTable,
    sites: &mut Vec<CallSite>,
)
    ensures
        site_views(final(sites)@) == site_views(old(sites)@) + calls(
            *node,
            known_names(*own, *imported),
        ),
    decreases node,
{
    let ghost known = known_names(*own, *imported);
    let ghost held = site_views(sites@);
    if is_set_apart(node) {
        assert(site_views(sites@) =~= held + calls(*node, known));
        return ;
    }
    push_own_call(node, own, imported, sites);
    let ghost first = site_views(sites@);
    let list = list_evaluation(node);
    let mut index: usize = 0;
    assert(site_views(sites@) =~= first + part_calls(*node, known, list@, 0));
    while index < list.len()
        invariant
            index <= list@.len(),
            known == known_names(*own, *imported),
            site_views(sites@) == first + part_calls(*node, known, list@, index as nat),
        decreases list@.len() - index,
    {
        let child: usize = list[index].child;
        if child < node.children.len() {
            collect_calls(&node.children[child], own, imported, sites);
        }
        index += 1;
        assert(site_views(sites@) =~= first + part_calls(*node, known, list@, index as nat));
    }
    assert(site_views(sites@) =~= held + calls(*node, known));
}

/// Whether a node is one signal by itself.
pub open spec fn plain_signal(node: SyntaxNode) -> bool {
    ||| node.named("StmtIf"@)
    ||| node.named("StmtFor"@)
    ||| node.named("StmtWhile"@)
    ||| node.named("StmtMatch"@)
    ||| node.named("StmtTry"@)
    ||| node.named("StmtAssign"@)
    ||| node.named("StmtAugAssign"@)
    ||| node.named("StmtAnnAssign"@)
    ||| node.named("StmtTypeAlias"@)
    ||| node.named("ExprBinOp"@)
    ||| node.named("ExprUnaryOp"@)
    ||| node.named("ExprCompare"@)
    ||| node.named("ExprCall"@)
    ||| node.named("ExprSubscript"@)
    ||| node.named("ExprAwait"@)
    ||| node.named("ExprYield"@)
    ||| node.named("ExprYieldFrom"@)
    ||| node.named("ExprIf"@)
}

fn is_plain_signal(node: &SyntaxNode) -> (answer: bool)
    ensures
        answer == plain_signal(*node),
{
    node.is("StmtIf") || node.is("StmtFor") || node.is("StmtWhile") || node.is("StmtMatch")
        || node.is("StmtTry") || node.is("StmtAssign") || node.is("StmtAugAssign") || node.is(
        "StmtAnnAssign",
    ) || node.is("StmtTypeAlias") || node.is("ExprBinOp") || node.is("ExprUnaryOp") || node.is(
        "ExprCompare",
    ) || node.is("ExprCall") || node.is("ExprSubscript") || node.is("ExprAwait") || node.is(
        "ExprYield",
    ) || node.is("ExprYieldFrom") || node.is("ExprIf")
}

/// How many signals a node sends itself.
pub open spec fn own_weight(node: SyntaxNode) -> nat {
    if node.named("ExprBoolOp"@) {
        links(node.children@.len())
    } else if comprehension(node) {
        named_count(node.children@, "Comprehension"@, node.children@.len())
    } else if plain_signal(node) {
        1
    } else {
        0
    }
}

/// How many signals there are under a node, outside of other units.
pub open spec fn signal_weight(node: SyntaxNode) -> nat
    decreases node, node.children@.len() + 1,
{
    if set_apart(node) {
        0
    } else {
        own_weight(node) + part_weight(node, node.children@.len())
    }
}

/// How many signals there are under the first `count` parts of a node.
pub open spec fn part_weight(node: SyntaxNode, count: nat) -> nat
    decreases node, count,
{
    if count == 0 || count > node.children@.len() {
        0
    } else {
        part_weight(node, (count - 1) as nat) + signal_weight(node.children@[count - 1])
    }
}

fn weigh(node: &SyntaxNode) -> (weight: usize)
    ensures
        weight == clipped(signal_weight(*node)),
    decreases node,
{
    if is_set_apart(node) {
        return 0;
    }
    let own: usize = if node.is("ExprBoolOp") {
        if node.children.len() > 0 {
            node.children.len() - 1
        } else {
            0
        }
    } else if is_comprehension(node) {
        count_named(&node.children, "Comprehension")
    } else if is_plain_signal(node) {
        1
    } else {
        0
    };
    let mut weight: usize = own;
    let mut index: usize = 0;
    while index < node.children.len()
        invariant
            index <= node.children@.len(),
            own == own_weight(*node),
            weight == clipped(own as nat + part_weight(*node, index as nat)),
        decreases node.children@.len() - index,
    {
        weight = weight.saturating_add(weigh(&node.children[index]));
        index += 1;
    }
    weight
}

/// The first `count` statements of a list, without definitions.
pub open spec fn listed_statements(parts: Seq<SyntaxNode>, sequence: usize, count: nat) -> Seq<
    StatementSite,
>
    decreases count,
{
    if count == 0 {
        Seq::empty()
    } else {
        let earlier = listed_statements(parts, sequence, (count - 1) as nat);
        let statement = parts[count - 1];
        if definition(statement) {
            earlier
        } else {
            earlier.push(
                StatementSite {
                    sequence,
                    ordinal: earlier.len() as usize,
                    range: node_range(statement),
                    scored_signals: clipped(signal_weight(statement)),
                },
            )
        }
    }
}

/// The statements that a node itself lists, under the number of the list.
pub open spec fn own_statements(node: SyntaxNode, number: usize) -> Seq<StatementSite> {
    if node.named("Body"@) {
        listed_statements(node.children@, number, node.children@.len())
    } else {
        Seq::empty()
    }
}

/// How many lists of statements a node is itself.
pub open spec fn own_lists(node: SyntaxNode) -> nat {
    if node.named("Body"@) {
        1
    } else {
        0
    }
}

/// How many lists of statements there are under a node, outside of other units.
pub open spec fn list_count(node: SyntaxNode) -> nat
    decreases node, node.children@.len() + 1,
{
    if set_apart(node) {
        0
    } else {
        own_lists(node) + part_list_count(node, node.children@.len())
    }
}

/// How many lists of statements there are under the first `count` parts.
pub open spec fn part_list_count(node: SyntaxNode, count: nat) -> nat
    decreases node, count,
{
    if count == 0 || count > node.children@.len() {
        0
    } else {
        part_list_count(node, (count - 1) as nat) + list_count(node.children@[count - 1])
    }
}

/// The statements under a node, outside of other units, their lists numbered
/// from `first` on.
pub open spec fn statements(node: SyntaxNode, first: usize) -> Seq<StatementSite>
    decreases node, node.children@.len() + 1,
{
    if set_apart(node) {
        Seq::empty()
    } else {
        own_statements(node, first) + part_statements(node, first, node.children@.len())
    }
}

/// The statements under the first `count` parts of a node.
pub open spec fn part_statements(node: SyntaxNode, first: usize, count: nat) -> Seq<StatementSite>
    decreases node, count,
{
    if count == 0 || count > node.children@.len() {
        Seq::empty()
    } else {
        part_statements(node, first, (count - 1) as nat) + statements(
            node.children@[count - 1],
            clipped(
                first as nat + own_lists(node) + part_list_count(node, (count - 1) as nat),
            ),
        )
    }
}

fn push_own_statements(node: &SyntaxNode, sequence: usize, sites: &mut Vec<StatementSite>)
    ensures
        final(sites)@ == old(sites)@ + own_statements(*node, sequence),
{
    let ghost held = sites@;
    let parts = &node.children;
    if node.is("Body") {
        let mut ordinal: usize = 0;
        let mut index: usize = 0;
        assert(sites@ =~= held + listed_statements(parts@, sequence, 0));
        while index < parts.len()
            invariant
                index <= parts@.len(),
                ordinal <= index,
                ordinal == listed_statements(parts@, sequence, index as nat).len(),
                sites@ == held + listed_statements(parts@, sequence, index as nat),
            decreases parts@.len() - index,
        {
            let statement = &parts[index];
            if !is_definition(statement) {
                sites.push(
                    StatementSite {
                        sequence,
                        ordinal,
                        range: ByteRange { start: statement.start, end: statement.end },
                        scored_signals: weigh(statement),
                    },
                );
                ordinal += 1;
                assert(sites@ =~= held + listed_statements(
                    parts@,
                    sequence,
                    (index + 1) as nat,
                ));
            }
            index += 1;
        }
    }
    assert(sites@ =~= held + own_statements(*node, sequence));
}

fn collect_statements(node: &SyntaxNode, first: usize, sites: &mut Vec<StatementSite>) -> (next:
    usize)
    ensures
        final(sites)@ == old(sites)@ + statements(*node, first),
        next == clipped(first as nat + list_count(*node)),
    decreases node,
{
    let ghost held = sites@;
    if is_set_apart(node) {
        assert(sites@ =~= held + statements(*node, first));
        return first;
    }
    push_own_statements(node, first, sites);
    let ghost own = sites@;
    let mut next: usize = if node.is("Body") {
        first.saturating_add(1)
    } else {
        first
    };
    let mut index: usize = 0;
    assert(sites@ =~= own + part_statements(*node, first, 0));
    while index < node.children.len()
        invariant
            index <= node.children@.len(),
            next == clipped(
                first as nat + own_lists(*node) + part_list_count(*node, index as nat),
            ),
            sites@ == own + part_statements(*node, first, index as nat),
        decreases node.children@.len() - index,
    {
        next = collect_statements(&node.children[index], next, sites);
        assert(sites@ =~= own + part_statements(*node, first, (index + 1) as nat));
        index += 1;
    }
    assert(sites@ =~= held + statements(*node, first));
    next
}

/// The names of parameters.
pub open spec fn parameter_names(parameters: Seq<SyntaxNode>) -> Seq<Seq<char>> {
    parameters.map_values(|parameter: SyntaxNode| parameter_name(parameter))
}

/// What is known in the body of a unit.
pub open spec fn names_in(
    body: SyntaxNode,
    parameters: Seq<Seq<char>>,
    import_aliases: Seq<Seq<char>>,
    import_names: Seq<Seq<char>>,
) -> KnownNames {
    KnownNames {
        parameters,
        aliases: bindings(body, true),
        assignments: bindings(body, false),
        import_aliases,
        import_names,
    }
}

/// The imports of a module.
pub struct ImportsView {
    pub aliases: Seq<Seq<char>>,
    pub names: Seq<Seq<char>>,
}

impl View for ImportTable {
    type V = ImportsView;

    open spec fn view(&self) -> ImportsView {
        ImportsView { aliases: texts(self.aliases@), names: texts(self.names@) }
    }
}

/// A body with the unit that it should belong to.
pub open spec fn body_holder(
    node: SyntaxNode,
    name: Seq<char>,
    kind: FunctionKind,
    range: ByteRange,
    parameters: Seq<Seq<char>>,
    imported: ImportsView,
) -> HolderView {
    match first_named(node.children@, "Body"@, 0) {
        Some(index) => {
            let body = node.children@[index];
            HolderView {
                name,
                kind,
                range,
                statements: statements(body, 0),
                lists: clipped(list_count(body)),
                calls: calls(body, names_in(body, parameters, imported.aliases, imported.names)),
            }
        },
        None => HolderView {
            name,
            kind,
            range,
            statements: Seq::empty(),
            lists: 0,
            calls: Seq::empty(),
        },
    }
}

/// A lambda with what happens in it: its body is one statement.
pub open spec fn lambda_holder(
    node: SyntaxNode,
    name: Seq<char>,
    imported: ImportsView,
) -> HolderView {
    let known = KnownNames {
        parameters: parameter_names(parameter_list(node)),
        aliases: Seq::empty(),
        assignments: Seq::empty(),
        import_aliases: imported.aliases,
        import_names: imported.names,
    };
    if node.children@.len() > 0 {
        let body = node.children@.last();
        HolderView {
            name,
            kind: FunctionKind::Lambda,
            range: node_range(node),
            statements: seq![
                StatementSite {
                    sequence: 0,
                    ordinal: 0,
                    range: node_range(body),
                    scored_signals: clipped(signal_weight(body)),
                },
            ],
            lists: 1,
            calls: calls(body, known),
        }
    } else {
        HolderView {
            name,
            kind: FunctionKind::Lambda,
            range: node_range(node),
            statements: Seq::empty(),
            lists: 0,
            calls: Seq::empty(),
        }
    }
}

/// Where a walk for holders is: in what scopes, and within what.
pub struct HolderContext {
    pub scope: Seq<Seq<char>>,
    pub in_function: bool,
    pub in_class: bool,
}

/// The kind of a function by what it stands in, in a walk for holders.
pub open spec fn holder_kind(context: HolderContext) -> FunctionKind {
    if context.in_function {
        FunctionKind::NestedFunction
    } else if context.in_class {
        FunctionKind::Method
    } else {
        FunctionKind::Function
    }
}

/// The holders that a node is itself.
pub open spec fn own_holders(
    node: SyntaxNode,
    context: HolderContext,
    lines: Seq<LineSpan>,
    imported: ImportsView,
) -> Seq<HolderView> {
    if node.named("StmtFunctionDef"@) {
        seq![
            body_holder(
                node,
                qualified(context.scope, node_name(node)),
                holder_kind(context),
                node_range(node),
                parameter_names(parameter_list(node)),
                imported,
            ),
        ]
    } else if node.named("StmtClassDef"@) {
        seq![
            body_holder(
                node,
                qualified(context.scope.push(node_name(node)), "<class>"@),
                FunctionKind::ClassInitializer,
                node_range(node),
                Seq::empty(),
                imported,
            ),
        ]
    } else if node.named("ExprLambda"@) {
        seq![
            lambda_holder(node, qualified(context.scope, lambda_label(node, lines)), imported),
        ]
    } else {
        Seq::empty()
    }
}

/// Whether a walk for holders goes on to a part, and in what context.
pub open spec fn part_context(
    node: SyntaxNode,
    child: int,
    context: HolderContext,
    lines: Seq<LineSpan>,
) -> Option<HolderContext> {
    let part = node.children@[child];
    if node.named("StmtFunctionDef"@) {
        if part.named("Body"@) {
            Some(
                HolderContext {
                    scope: context.scope.push(node_name(node)),
                    in_function: true,
                    in_class: context.in_class,
                },
            )
        } else {
            None
        }
    } else if node.named("StmtClassDef"@) {
        if part.named("Body"@) {
            Some(
                HolderContext {
                    scope: context.scope.push(node_name(node)),
                    in_function: context.in_function,
                    in_class: true,
                },
            )
        } else {
            None
        }
    } else if node.named("ExprLambda"@) && child == node.children@.len() - 1 {
        Some(
            HolderContext {
                scope: context.scope.push(lambda_label(node, lines)),
                in_function: context.in_function,
                in_class: context.in_class,
            },
        )
    } else {
        Some(context)
    }
}

/// Steps to the parts of a node in the order in which holders are met.
pub open spec fn meeting(node: SyntaxNode) -> Seq<Step> {
    if set_apart(node) || node.named("Parameters"@) || node.named("ParameterWithDefault"@) {
        plain_steps(node.children@.len(), 0)
    } else {
        evaluation(node)
    }
}

fn list_meeting(node: &SyntaxNode) -> (list: Vec<Step>)
    ensures
        list@ == meeting(*node),
{
    if !is_set_apart(node) && !node.is("Parameters") && !node.is("ParameterWithDefault") {
        return list_evaluation(node);
    }
    let mut list: Vec<Step> = Vec::new();
    push_plain(&mut list, node.children.len(), 0);
    assert(list@ =~= meeting(*node));
    list
}

/// The holders of a node and its parts.
pub open spec fn holders(
    node: SyntaxNode,
    context: HolderContext,
    lines: Seq<LineSpan>,
    imported: ImportsView,
) -> Seq<HolderView>
    decreases node, meeting(node).len() + 1,
{
    own_holders(node, context, lines, imported) + part_holders(
        node,
        context,
        lines,
        imported,
        meeting(node),
        meeting(node).len(),
    )
}

/// The holders of the parts of a node that the first `count` steps go to.
pub open spec fn part_holders(
    node: SyntaxNode,
    context: HolderContext,
    lines: Seq<LineSpan>,
    imported: ImportsView,
    list: Seq<Step>,
    count: nat,
) -> Seq<HolderView>
    decreases node, count,
{
    if count == 0 {
        Seq::empty()
    } else {
        let earlier = part_holders(node, context, lines, imported, list, (count - 1) as nat);
        let child = list[count - 1].child as int;
        if child >= node.children@.len() {
            earlier
        } else {
            match part_context(node, child, context, lines) {
                Some(inner) => earlier + holders(node.children@[child], inner, lines, imported),
                None => earlier,
            }
        }
    }
}

/// The holders of a module.
pub open spec fn module_holders(
    module: SyntaxNode,
    length: usize,
    lines: Seq<LineSpan>,
) -> Seq<HolderView> {
    let imported = ImportsView {
        aliases: imports(module, true),
        names: imports(module, false),
    };
    let outside = HolderContext { scope: Seq::empty(), in_function: false, in_class: false };
    seq![
        body_holder(
            module,
            qualified(Seq::empty(), "<module>"@),
            FunctionKind::ModuleInitializer,
            ByteRange { start: 0, end: length },
            Seq::empty(),
            imported,
        ),
    ] + holders(module, outside, lines, imported)
}

fn list_parameter_names(node: &SyntaxNode) -> (names: Vec<String>)
    ensures
        texts(names@) == parameter_names(parameter_list(*node)),
{
    let mut names: Vec<String> = Vec::new();
    let ghost whole = parameter_names(parameter_list(*node));
    if let Some(index) = find_named(&node.children, "Parameters") {
        let parameters = &node.children[index].children;
        while names.len() < parameters.len()
            invariant
                names@.len() <= parameters@.len(),
                parameters@ == parameter_list(*node),
                whole == parameter_names(parameters@),
                texts(names@) =~= whole.take(names@.len() as int),
            decreases parameters@.len() - names@.len(),
        {
            let ghost held = texts(names@);
            let name = name_of_parameter(&parameters[names.len()]).to_owned();
            assert(name@ == whole[names@.len() as int]);
            push_text(&mut names, name);
        }
    }
    assert(texts(names@) =~= whole);
    names
}

fn make_body_holder(
    node: &SyntaxNode,
    name: String,
    kind: FunctionKind,
    range: ByteRange,
    parameters: Vec<String>,
    imported: &ImportTable,
) -> (holder: Holder)
    ensures
        holder@ == body_holder(*node, name@, kind, range, texts(parameters@), imported@),
{
    let mut sites: Vec<StatementSite> = Vec::new();
    let mut lists: usize = 0;
    let mut found: Vec<CallSite> = Vec::new();
    assert(site_views(found@) =~= Seq::<CallSiteView>::empty());
    if let Some(index) = find_named(&node.children, "Body") {
        let body = &node.children[index];
        let mut aliases: Vec<String> = Vec::new();
        let mut assignments: Vec<String> = Vec::new();
        assert(texts(aliases@) =~= Seq::<Seq<char>>::empty());
        assert(texts(assignments@) =~= Seq::<Seq<char>>::empty());
        collect_bindings(body, true, &mut aliases);
        collect_bindings(body, false, &mut assignments);
        assert(texts(aliases@) =~= bindings(*body, true));
        assert(texts(assignments@) =~= bindings(*body, false));
        let own = NameTable { parameters, aliases, assignments };
        lists = collect_statements(body, 0, &mut sites);
        collect_calls(body, &own, imported, &mut found);
        assert(sites@ =~= statements(*body, 0));
        assert(site_views(found@) =~= calls(*body, known_names(own, *imported)));
    } else {
        assert(sites@ =~= Seq::<StatementSite>::empty());
    }
    Holder { name, kind, range, statements: sites, lists, calls: found }
}

fn make_lambda_holder(node: &SyntaxNode, name: String, imported: &ImportTable) -> (holder: Holder)
    ensures
        holder@ == lambda_holder(*node, name@, imported@),
{
    let mut sites: Vec<StatementSite> = Vec::new();
    let mut lists: usize = 0;
    let mut found: Vec<CallSite> = Vec::new();
    assert(site_views(found@) =~= Seq::<CallSiteView>::empty());
    if node.children.len() > 0 {
        let body = &node.children[node.children.len() - 1];
        let own = NameTable {
            parameters: list_parameter_names(node),
            aliases: Vec::new(),
            assignments: Vec::new(),
        };
        assert(texts(own.aliases@) =~= Seq::<Seq<char>>::empty());
        assert(texts(own.assignments@) =~= Seq::<Seq<char>>::empty());
        sites.push(
            StatementSite {
                sequence: 0,
                ordinal: 0,
                range: ByteRange { start: body.start, end: body.end },
                scored_signals: weigh(body),
            },
        );
        lists = 1;
        collect_calls(body, &own, imported, &mut found);
        assert(site_views(found@) =~= calls(*body, known_names(own, *imported)));
        assert(sites@ =~= lambda_holder(*node, name@, imported@).statements);
    } else {
        assert(sites@ =~= Seq::<StatementSite>::empty());
    }
    Holder {
        name,
        kind: FunctionKind::Lambda,
        range: ByteRange { start: node.start, end: node.end },
        statements: sites,
        lists,
        calls: found,
    }
}

fn push_own_holder(
    node: &SyntaxNode,
    scope: &Vec<String>,
    in_function: bool,
    in_class: bool,
    table: &LineTable,
    imported: &ImportTable,
    output: &mut Vec<Holder>,
)
    requires
        table.well_formed(),
    ensures
        holder_views(final(output)@) == holder_views(old(output)@) + own_holders(
            *node,
            HolderContext { scope: texts(scope@), in_function, in_class },
            table.lines@,
            imported@,
        ),
{
    let ghost held = holder_views(output@);
    let ghost context = HolderContext { scope: texts(scope@), in_function, in_class };
    let range = ByteRange { start: node.start, end: node.end };
    if node.is("StmtFunctionDef") {
        let kind = if in_function {
            FunctionKind::NestedFunction
        } else if in_class {
            FunctionKind::Method
        } else {
            FunctionKind::Function
        };
        push_holder(
            output,
            make_body_holder(
                node,
                qualified_name(scope, name_of_node(node)),
                kind,
                range,
                list_parameter_names(node),
                imported,
            ),
        );
    } else if node.is("StmtClassDef") {
        let inner = with_scope(scope, name_of_node(node));
        let none: Vec<String> = Vec::new();
        assert(texts(none@) =~= Seq::<Seq<char>>::empty());
        push_holder(
            output,
            make_body_holder(
                node,
                qualified_name(&inner, "<class>"),
                FunctionKind::ClassInitializer,
                range,
                none,
                imported,
            ),
        );
    } else if node.is("ExprLambda") {
        let label = label_lambda(node, table);
        push_holder(
            output,
            make_lambda_holder(node, qualified_name(scope, label.as_str()), imported),
        );
    }
    assert(holder_views(output@) =~= held + own_holders(*node, context, table.lines@, imported@));
}

/// Collects the holders of a node and its parts.
fn collect_holders(
    node: &SyntaxNode,
    scope: &Vec<String>,
    in_function: bool,
    in_class: bool,
    table: &LineTable,
    imported: &ImportTable,
    output: &mut Vec<Holder>,
)
    requires
        table.well_formed(),
    ensures
        holder_views(final(output)@) == holder_views(old(output)@) + holders(
            *node,
            HolderContext { scope: texts(scope@), in_function, in_class },
            table.lines@,
            imported@,
        ),
    decreases node,
{
    let ghost held = holder_views(output@);
    let ghost lines = table.lines@;
    let ghost context = HolderContext { scope: texts(scope@), in_function, in_class };
    push_own_holder(node, scope, in_function, in_class, table, imported, output);
    let is_function: bool = node.is("StmtFunctionDef");
    let is_class: bool = !is_function && node.is("StmtClassDef");
    let is_lambda: bool = !is_function && !is_class && node.is("ExprLambda");
    let inner: Vec<String> = if is_function || is_class {
        with_scope(scope, name_of_node(node))
    } else if is_lambda {
        with_scope(scope, label_lambda(node, table).as_str())
    } else {
        Vec::new()
    };
    let ghost own = holder_views(output@);
    let list = list_meeting(node);
    let mut index: usize = 0;
    assert(holder_views(output@) =~= own + part_holders(
        *node,
        context,
        lines,
        imported@,
        list@,
        0,
    ));
    while index < list.len()
        invariant
            index <= list@.len(),
            table.well_formed(),
            lines == table.lines@,
            context == (HolderContext { scope: texts(scope@), in_function, in_class }),
            is_function == node.named("StmtFunctionDef"@),
            is_class == (!is_function && node.named("StmtClassDef"@)),
            is_lambda == (!is_function && !is_class && node.named("ExprLambda"@)),
            is_function || is_class ==> texts(inner@) == context.scope.push(node_name(*node)),
            is_lambda ==> texts(inner@) == context.scope.push(lambda_label(*node, lines)),
            holder_views(output@) == own + part_holders(
                *node,
                context,
                lines,
                imported@,
                list@,
                index as nat,
            ),
        decreases list@.len() - index,
    {
        let child: usize = list[index].child;
        if child < node.children.len() {
            let part = &node.children[child];
            if is_function || is_class {
                if part.is("Body") {
                    collect_holders(
                        part,
                        &inner,
                        in_function || is_function,
                        in_class || is_class,
                        table,
                        imported,
                        output,
                    );
                }
            } else if is_lambda && child == node.children.len() - 1 {
                collect_holders(part, &inner, in_function, in_class, table, imported, output);
            } else {
                collect_holders(part, scope, in_function, in_class, table, imported, output);
            }
        }
        assert(holder_views(output@) =~= own + part_holders(
            *node,
            context,
            lines,
            imported@,
            list@,
            (index + 1) as nat,
        ));
        index += 1;
    }
    assert(holder_views(output@) =~= held + holders(*node, context, lines, imported@));
}

/// Lists the holders of a module.
pub fn list_holders(module: &SyntaxNode, length: usize, table: &LineTable) -> (output: Vec<Holder>)
    requires
        table.well_formed(),
    ensures
        holder_views(output@) == module_holders(*module, length, table.lines@),
{
    let mut aliases: Vec<String> = Vec::new();
    let mut names: Vec<String> = Vec::new();
    assert(texts(aliases@) =~= Seq::<Seq<char>>::empty());
    assert(texts(names@) =~= Seq::<Seq<char>>::empty());
    collect_imports(module, true, &mut aliases);
    collect_imports(module, false, &mut names);
    let imported = ImportTable { aliases, names };
    assert(imported@.aliases =~= imports(*module, true));
    assert(imported@.names =~= imports(*module, false));
    let scope: Vec<String> = Vec::new();
    let none: Vec<String> = Vec::new();
    assert(texts(scope@) =~= Seq::<Seq<char>>::empty());
    assert(texts(none@) =~= Seq::<Seq<char>>::empty());
    let mut output: Vec<Holder> = Vec::new();
    assert(holder_views(output@) =~= Seq::<HolderView>::empty());
    push_holder(
        &mut output,
        make_body_holder(
            module,
            qualified_name(&scope, "<module>"),
            FunctionKind::ModuleInitializer,
            ByteRange { start: 0, end: length },
            none,
            &imported,
        ),
    );
    collect_holders(module, &scope, false, false, table, &imported, &mut output);
    assert(holder_views(output@) =~= module_holders(*module, length, table.lines@));
    output
}

}
