//! Calls and statements of Rust source.
use vstd::prelude::*;
use crate::evidence::CallResolutionReason;
use crate::frontend_evidence::{
    holder_views, push_holder, push_site, site_views, CallSite, CallSiteView, Holder, HolderView,
    StatementSite,
};
use crate::known_names::{
    direct_reason, find_reason, known_names, push_text, ImportTable, KnownNames, NameTable,
};
use crate::model::Category;
use crate::rust_syntax::{attribute_count, count_attributes};
use crate::rust_units::{
    constant_item, find_constant_value, function_item, has_value, is_constant_item,
    is_function_item, is_pattern, list_rust_after, pattern, push_rust_units, rust_after, rust_units,
    signature_parts,
};
use crate::signals::{count_scored, scored_count, Signal};
use crate::spans::{LineSpan, LineTable};
use crate::syntax::{find_last_name, find_named, first_named, last_name, SyntaxNode};
use crate::sums::clipped;
use crate::text::texts;
use crate::unit_walk::{outermost, visit_views, Context, ContextView, UnitVisitView};
use crate::units::{node_range, span_of, unit_views, Unit, UnitView};
use crate::walk::{collect_signals, signals, Dialect};

verus! {

/// Whether what a node holds belongs to another unit.
pub open spec fn another_unit(node: SyntaxNode) -> bool {
    node.named("ExprClosure"@) || node.named("StmtItem"@)
}

fn is_another_unit(node: &SyntaxNode) -> (answer: bool)
    ensures
        answer == another_unit(*node),
{
    node.is("ExprClosure") || node.is("StmtItem")
}

/// The names that `use` declarations bind anywhere under a node: those under
/// another name, or the others.
pub open spec fn used_names(node: SyntaxNode, renamed: bool) -> Seq<Seq<char>>
    decreases node, node.children@.len() + 1,
{
    let own: Seq<Seq<char>> = if node.named(
        if renamed {
            "UseRename"@
        } else {
            "UseName"@
        },
    ) {
        seq![node.text@]
    } else {
        Seq::empty()
    };
    own + part_used_names(node, renamed, node.children@.len())
}

/// The names that `use` declarations bind under the first `count` parts.
pub open spec fn part_used_names(node: SyntaxNode, renamed: bool, count: nat) -> Seq<Seq<char>>
    decreases node, count,
{
    if count == 0 || count > node.children@.len() {
        Seq::empty()
    } else {
        part_used_names(node, renamed, (count - 1) as nat) + used_names(
            node.children@[count - 1],
            renamed,
        )
    }
}

fn collect_used_names(node: &SyntaxNode, renamed: bool, list: &mut Vec<String>)
    ensures
        texts(final(list)@) == texts(old(list)@) + used_names(*node, renamed),
    decreases node,
{
    let ghost held = texts(list@);
    let binds: bool = if renamed {
        node.is("UseRename")
    } else {
        node.is("UseName")
    };
    if binds {
        push_text(list, node.text.clone());
    }
    let ghost own = texts(list@);
    let parts = &node.children;
    let mut index: usize = 0;
    assert(texts(list@) =~= own + part_used_names(*node, renamed, 0));
    while index < parts.len()
        invariant
            index <= parts@.len(),
            parts@ == node.children@,
            texts(list@) == own + part_used_names(*node, renamed, index as nat),
        decreases parts@.len() - index,
    {
        collect_used_names(&parts[index], renamed, list);
        index += 1;
        assert(texts(list@) =~= own + part_used_names(*node, renamed, index as nat));
    }
    assert(texts(list@) =~= held + used_names(*node, renamed));
}

/// Whether a `let` statement gives another name to what a path names.
pub open spec fn alias_local(node: SyntaxNode) -> bool {
    let place = attribute_count(node) + 1;
    node.named("StmtLocal"@) && place < node.children@.len() && node.children@[place as int].named(
        "ExprPath"@,
    ) && !node.children@[place as int].flag
}

fn is_alias_local(node: &SyntaxNode) -> (answer: bool)
    ensures
        answer == alias_local(*node),
{
    if !node.is("StmtLocal") {
        return false;
    }
    let attributes: usize = count_attributes(node);
    attributes < node.children.len() && attributes + 1 < node.children.len()
        && node.children[attributes + 1].is("ExprPath") && !node.children[attributes + 1].flag
}

/// The names that are bound under a node, outside of other units: those that
/// become aliases of what a path names, or the others.
pub open spec fn bound_names(node: SyntaxNode, aliased: bool) -> Seq<Seq<char>>
    decreases node, node.children@.len() + 1,
{
    if another_unit(node) {
        Seq::empty()
    } else {
        let own: Seq<Seq<char>> = if !aliased && node.named("PatIdent"@) {
            seq![node.text@]
        } else {
            Seq::empty()
        };
        own + part_bound_names(node, aliased, node.children@.len())
    }
}

/// The names that are bound under the first `count` parts of a node.
pub open spec fn part_bound_names(node: SyntaxNode, aliased: bool, count: nat) -> Seq<Seq<char>>
    decreases node, count,
{
    if count == 0 || count > node.children@.len() {
        Seq::empty()
    } else {
        let earlier = part_bound_names(node, aliased, (count - 1) as nat);
        let part = node.children@[count - 1];
        if alias_local(node) && pattern(part) {
            if aliased {
                earlier + bound_names(part, false)
            } else {
                earlier
            }
        } else {
            earlier + bound_names(part, aliased)
        }
    }
}

fn collect_bound_names(node: &SyntaxNode, aliased: bool, list: &mut Vec<String>)
    ensures
        texts(final(list)@) == texts(old(list)@) + bound_names(*node, aliased),
    decreases node,
{
    let ghost held = texts(list@);
    if is_another_unit(node) {
        assert(texts(list@) =~= held + bound_names(*node, aliased));
        return ;
    }
    if !aliased && node.is("PatIdent") {
        push_text(list, node.text.clone());
    }
    let ghost own = texts(list@);
    let local: bool = is_alias_local(node);
    let parts = &node.children;
    let mut index: usize = 0;
    assert(texts(list@) =~= own + part_bound_names(*node, aliased, 0));
    while index < parts.len()
        invariant
            index <= parts@.len(),
            parts@ == node.children@,
            local == alias_local(*node),
            texts(list@) == own + part_bound_names(*node, aliased, index as nat),
        decreases parts@.len() - index,
    {
        if local && is_pattern(&parts[index]) {
            if aliased {
                collect_bound_names(&parts[index], false, list);
            }
        } else {
            collect_bound_names(&parts[index], aliased, list);
        }
        index += 1;
        assert(texts(list@) =~= own + part_bound_names(*node, aliased, index as nat));
    }
    assert(texts(list@) =~= held + bound_names(*node, aliased));
}

/// The names that the patterns among the first `count` parts bind.
pub open spec fn pattern_names(parts: Seq<SyntaxNode>, count: nat) -> Seq<Seq<char>>
    decreases count,
{
    if count == 0 {
        Seq::empty()
    } else {
        let earlier = pattern_names(parts, (count - 1) as nat);
        if pattern(parts[count - 1]) {
            earlier + bound_names(parts[count - 1], false)
        } else {
            earlier
        }
    }
}

fn push_pattern_names(parts: &Vec<SyntaxNode>, list: &mut Vec<String>)
    ensures
        texts(final(list)@) == texts(old(list)@) + pattern_names(parts@, parts@.len()),
{
    let ghost held = texts(list@);
    let mut index: usize = 0;
    assert(texts(list@) =~= held + pattern_names(parts@, 0));
    while index < parts.len()
        invariant
            index <= parts@.len(),
            texts(list@) == held + pattern_names(parts@, index as nat),
        decreases parts@.len() - index,
    {
        if is_pattern(&parts[index]) {
            collect_bound_names(&parts[index], false, list);
        }
        index += 1;
        assert(texts(list@) =~= held + pattern_names(parts@, index as nat));
    }
}

/// The names that the parameters among the first `count` parts of a signature
/// bind.
pub open spec fn input_names(parts: Seq<SyntaxNode>, count: nat) -> Seq<Seq<char>>
    decreases count,
{
    if count == 0 {
        Seq::empty()
    } else {
        let earlier = input_names(parts, (count - 1) as nat);
        let part = parts[count - 1];
        if part.named("Parameter"@) {
            earlier + pattern_names(part.children@, part.children@.len())
        } else {
            earlier
        }
    }
}

/// The names that the parameters of a callable bind.
pub open spec fn parameter_names(node: SyntaxNode) -> Seq<Seq<char>> {
    if function_item(node) {
        input_names(signature_parts(node), signature_parts(node).len())
    } else if node.named("ExprClosure"@) {
        pattern_names(node.children@, node.children@.len())
    } else {
        Seq::empty()
    }
}

fn list_parameter_names(node: &SyntaxNode) -> (list: Vec<String>)
    ensures
        texts(list@) == parameter_names(*node),
{
    let mut list: Vec<String> = Vec::new();
    assert(texts(list@) =~= Seq::<Seq<char>>::empty());
    if is_function_item(node) {
        if let Some(signature) = find_named(&node.children, "Signature") {
            let parts = &node.children[signature].children;
            let mut index: usize = 0;
            assert(texts(list@) =~= input_names(parts@, 0));
            while index < parts.len()
                invariant
                    index <= parts@.len(),
                    texts(list@) == input_names(parts@, index as nat),
                decreases parts@.len() - index,
            {
                if parts[index].is("Parameter") {
                    push_pattern_names(&parts[index].children, &mut list);
                }
                index += 1;
            }
        }
    } else if node.is("ExprClosure") {
        push_pattern_names(&node.children, &mut list);
    }
    assert(texts(list@) =~= parameter_names(*node));
    list
}

/// What a callee is called, and how far it can be resolved.
pub open spec fn callee_target(callee: SyntaxNode, known: KnownNames) -> (
    Seq<char>,
    CallResolutionReason,
) {
    let name = last_name(callee.names@, ""@);
    if callee.named("ExprPath"@) && !callee.flag && callee.names@.len() == 1 {
        (name, direct_reason(known, name))
    } else if callee.named("ExprPath"@) {
        (name, CallResolutionReason::Qualified)
    } else {
        ("<dynamic>"@, CallResolutionReason::Dynamic)
    }
}

/// The call that a node is itself.
pub open spec fn own_call(node: SyntaxNode, known: KnownNames) -> Seq<CallSiteView> {
    let place = attribute_count(node) as int;
    if node.named("ExprMethodCall"@) {
        seq![
            CallSiteView {
                name: node.text@,
                reason: CallResolutionReason::Method,
                range: node_range(node),
            },
        ]
    } else if node.named("ExprCall"@) && place < node.children@.len() {
        let target = callee_target(node.children@[place], known);
        seq![CallSiteView { name: target.0, reason: target.1, range: node_range(node) }]
    } else {
        Seq::empty()
    }
}

/// The calls of a node and its parts, outside of other units.
pub open spec fn calls_in(node: SyntaxNode, known: KnownNames) -> Seq<CallSiteView>
    decreases node, node.children@.len() + 1,
{
    if another_unit(node) {
        Seq::empty()
    } else {
        own_call(node, known) + part_calls(node, known, node.children@.len())
    }
}

/// The calls of the first `count` parts of a node.
pub open spec fn part_calls(node: SyntaxNode, known: KnownNames, count: nat) -> Seq<CallSiteView>
    decreases node, count,
{
    if count == 0 || count > node.children@.len() {
        Seq::empty()
    } else {
        part_calls(node, known, (count - 1) as nat) + calls_in(node.children@[count - 1], known)
    }
}

fn push_own_call(
    node: &SyntaxNode,
    own: &NameTable,
    imported: &ImportTable,
    sites: &mut Vec<CallSite>,
)
    ensures
        site_views(final(sites)@) == site_views(old(sites)@) + own_call(
            *node,
            known_names(*own, *imported),
        ),
{
    let ghost held = site_views(sites@);
    if node.is("ExprMethodCall") {
        push_site(sites, node.text.clone(), CallResolutionReason::Method, span_of(node));
    } else if node.is("ExprCall") {
        let place: usize = count_attributes(node);
        if place < node.children.len() {
            let callee = &node.children[place];
            let name = find_last_name(&callee.names, "");
            if callee.is("ExprPath") && !callee.flag && callee.names.len() == 1 {
                let reason = find_reason(own, imported, name.as_str());
                push_site(sites, name, reason, span_of(node));
            } else if callee.is("ExprPath") {
                push_site(sites, name, CallResolutionReason::Qualified, span_of(node));
            } else {
                let dynamic = "<dynamic>".to_owned();
                push_site(sites, dynamic, CallResolutionReason::Dynamic, span_of(node));
            }
        }
    }
    assert(site_views(sites@) =~= held + own_call(*node, known_names(*own, *imported)));
}

fn collect_calls(
    node: &SyntaxNode,
    own: &NameTable,
    imported: &ImportTable,
    sites: &mut Vec<CallSite>,
)
    ensures
        site_views(final(sites)@) == site_views(old(sites)@) + calls_in(
            *node,
            known_names(*own, *imported),
        ),
    decreases node,
{
    let ghost known = known_names(*own, *imported);
    let ghost held = site_views(sites@);
    if is_another_unit(node) {
        assert(site_views(sites@) =~= held + calls_in(*node, known));
        return ;
    }
    push_own_call(node, own, imported, sites);
    let ghost first = site_views(sites@);
    let parts = &node.children;
    let mut index: usize = 0;
    assert(site_views(sites@) =~= first + part_calls(*node, known, 0));
    while index < parts.len()
        invariant
            index <= parts@.len(),
            parts@ == node.children@,
            known == known_names(*own, *imported),
            site_views(sites@) == first + part_calls(*node, known, index as nat),
        decreases parts@.len() - index,
    {
        collect_calls(&parts[index], own, imported, sites);
        index += 1;
        assert(site_views(sites@) =~= first + part_calls(*node, known, index as nat));
    }
    assert(site_views(sites@) =~= held + calls_in(*node, known));
}

/// How many signals of a statement are scored.
pub open spec fn statement_score(statement: SyntaxNode) -> usize {
    let list = signals(Dialect::Rust, statement, 0);
    scored_count(list, list.len()) as usize
}

fn score_statement(statement: &SyntaxNode) -> (number: usize)
    ensures
        number == statement_score(*statement),
{
    let mut list: Vec<Signal> = Vec::new();
    collect_signals(Dialect::Rust, statement, 0, &mut list);
    assert(list@ =~= signals(Dialect::Rust, *statement, 0));
    count_scored(&list)
}

/// The first `count` statements of a block, without items.
pub open spec fn listed_statements(block: SyntaxNode, sequence: usize, count: nat) -> Seq<
    StatementSite,
>
    decreases count,
{
    if count == 0 {
        Seq::empty()
    } else {
        let earlier = listed_statements(block, sequence, (count - 1) as nat);
        let statement = block.children@[count - 1];
        if statement.named("StmtItem"@) {
            earlier
        } else {
            earlier.push(
                StatementSite {
                    sequence,
                    ordinal: earlier.len() as usize,
                    range: node_range(statement),
                    scored_signals: statement_score(statement),
                },
            )
        }
    }
}

/// The statements that a node itself lists, under the number of the list.
pub open spec fn own_statements(node: SyntaxNode, number: usize) -> Seq<StatementSite> {
    if node.named("Block"@) {
        listed_statements(node, number, node.children@.len())
    } else {
        Seq::empty()
    }
}

/// How many lists of statements a node is itself.
pub open spec fn own_lists(node: SyntaxNode) -> nat {
    if node.named("Block"@) {
        1
    } else {
        0
    }
}

/// How many lists of statements a node and its parts have, outside of other
/// units.
pub open spec fn list_count(node: SyntaxNode) -> nat
    decreases node, node.children@.len() + 1,
{
    if another_unit(node) {
        0
    } else {
        own_lists(node) + part_list_count(node, node.children@.len())
    }
}

/// How many lists of statements the first `count` parts of a node have.
pub open spec fn part_list_count(node: SyntaxNode, count: nat) -> nat
    decreases node, count,
{
    if count == 0 || count > node.children@.len() {
        0
    } else {
        part_list_count(node, (count - 1) as nat) + list_count(node.children@[count - 1])
    }
}

/// The statements of a node and its parts, outside of other units, their lists
/// numbered from `first` on.
pub open spec fn statements_in(node: SyntaxNode, first: usize) -> Seq<StatementSite>
    decreases node, node.children@.len() + 1,
{
    if another_unit(node) {
        Seq::empty()
    } else {
        own_statements(node, first) + part_statements(node, first, node.children@.len())
    }
}

/// The statements of the first `count` parts of a node.
pub open spec fn part_statements(node: SyntaxNode, first: usize, count: nat) -> Seq<StatementSite>
    decreases node, count,
{
    if count == 0 || count > node.children@.len() {
        Seq::empty()
    } else {
        part_statements(node, first, (count - 1) as nat) + statements_in(
            node.children@[count - 1],
            clipped(
                first as nat + own_lists(node) + part_list_count(node, (count - 1) as nat),
            ),
        )
    }
}

fn list_block(block: &SyntaxNode, sequence: usize) -> (sites: Vec<StatementSite>)
    ensures
        sites@ == listed_statements(*block, sequence, block.children@.len()),
{
    let mut sites: Vec<StatementSite> = Vec::new();
    let parts = &block.children;
    let mut index: usize = 0;
    while index < parts.len()
        invariant
            index <= parts@.len(),
            parts@ == block.children@,
            sites@ == listed_statements(*block, sequence, index as nat),
        decreases parts@.len() - index,
    {
        let statement = &parts[index];
        if !statement.is("StmtItem") {
            let ordinal: usize = sites.len();
            sites.push(
                StatementSite {
                    sequence,
                    ordinal,
                    range: span_of(statement),
                    scored_signals: score_statement(statement),
                },
            );
        }
        index += 1;
    }
    sites
}

fn collect_statements(node: &SyntaxNode, first: usize, sites: &mut Vec<StatementSite>) -> (next:
    usize)
    ensures
        final(sites)@ == old(sites)@ + statements_in(*node, first),
        next == clipped(first as nat + list_count(*node)),
    decreases node,
{
    let ghost held = sites@;
    if is_another_unit(node) {
        assert(sites@ =~= held + statements_in(*node, first));
        return first;
    }
    if node.is("Block") {
        let mut listed = list_block(node, first);
        sites.append(&mut listed);
    }
    let ghost own = sites@;
    assert(own =~= held + own_statements(*node, first));
    let mut next: usize = if node.is("Block") {
        first.saturating_add(1)
    } else {
        first
    };
    let mut index: usize = 0;
    assert(sites@ =~= own + part_statements(*node, first, 0));
    while index < node.children.len()
        invariant
            index <= node.children@.len(),
            next == clipped(
                first as nat + own_lists(*node) + part_list_count(*node, index as nat),
            ),
            sites@ == own + part_statements(*node, first, index as nat),
        decreases node.children@.len() - index,
    {
        next = collect_statements(&node.children[index], next, sites);
        assert(sites@ =~= own + part_statements(*node, first, (index + 1) as nat));
        index += 1;
    }
    assert(sites@ =~= held + statements_in(*node, first));
    next
}

/// Whether a body is a list of statements by itself.
pub open spec fn block_body(body: SyntaxNode) -> bool {
    body.named("Block"@) || body.named("ExprBlock"@)
}

/// The statements of a body: those of its blocks, behind the one that it is
/// itself, in a list of its own, where it is no block.
pub open spec fn body_statements(body: SyntaxNode) -> Seq<StatementSite> {
    if block_body(body) {
        statements_in(body, 0)
    } else {
        seq![
            StatementSite {
                sequence: 0,
                ordinal: 0,
                range: node_range(body),
                scored_signals: statement_score(body),
            },
        ] + statements_in(body, 1)
    }
}

/// How many lists of statements a body has.
pub open spec fn body_lists(body: SyntaxNode) -> usize {
    if block_body(body) {
        clipped(list_count(body))
    } else {
        clipped(1 + list_count(body))
    }
}

fn list_body(body: &SyntaxNode) -> (result: (Vec<StatementSite>, usize))
    ensures
        result.0@ == body_statements(*body),
        result.1 == body_lists(*body),
{
    let mut sites: Vec<StatementSite> = Vec::new();
    let mut first: usize = 0;
    if !body.is("Block") && !body.is("ExprBlock") {
        sites.push(
            StatementSite {
                sequence: 0,
                ordinal: 0,
                range: span_of(body),
                scored_signals: score_statement(body),
            },
        );
        first = 1;
    }
    let lists: usize = collect_statements(body, first, &mut sites);
    assert(sites@ =~= body_statements(*body));
    (sites, lists)
}

/// Which part of a node is the body of a unit.
pub open spec fn body_part(node: SyntaxNode) -> Option<int> {
    let parts = node.children@;
    if function_item(node) {
        match first_named(parts, "Signature"@, 0) {
            Some(_) => first_named(parts, "Block"@, 0),
            None => None,
        }
    } else if constant_item(node) && has_value(node) {
        Some(parts.len() - 1)
    } else if !constant_item(node) && node.named("ExprClosure"@) && parts.len() > 0 {
        Some(parts.len() - 1)
    } else {
        None
    }
}

fn find_body_part(node: &SyntaxNode) -> (part: Option<usize>)
    ensures
        match (part, body_part(*node)) {
            (Some(index), Some(expected)) => index == expected && index < node.children@.len(),
            (None, None) => true,
            _ => false,
        },
{
    let parts = &node.children;
    if is_function_item(node) {
        match find_named(parts, "Signature") {
            Some(_) => find_named(parts, "Block"),
            None => None,
        }
    } else if is_constant_item(node) {
        if find_constant_value(node) {
            Some(parts.len() - 1)
        } else {
            None
        }
    } else if node.is("ExprClosure") && parts.len() > 0 {
        Some(parts.len() - 1)
    } else {
        None
    }
}

/// What is known in the body of a unit.
pub open spec fn names_in(
    node: SyntaxNode,
    body: SyntaxNode,
    renamed: Seq<Seq<char>>,
    imported: Seq<Seq<char>>,
) -> KnownNames {
    KnownNames {
        parameters: parameter_names(node),
        aliases: bound_names(body, true),
        assignments: bound_names(body, false),
        import_aliases: renamed,
        import_names: imported,
    }
}

/// What happens in the unit that a node is itself.
pub open spec fn own_holder(
    node: SyntaxNode,
    context: ContextView,
    lines: Seq<LineSpan>,
    renamed: Seq<Seq<char>>,
    imported: Seq<Seq<char>>,
) -> Seq<HolderView> {
    let units = rust_units(node, context, lines);
    match body_part(node) {
        Some(index) => if units.len() > 0 {
            let body = node.children@[index];
            seq![
                HolderView {
                    name: units[0].name,
                    kind: units[0].kind,
                    range: units[0].full,
                    statements: body_statements(body),
                    lists: body_lists(body),
                    calls: calls_in(body, names_in(node, body, renamed, imported)),
                },
            ]
        } else {
            Seq::empty()
        },
        None => Seq::empty(),
    }
}

/// What happens in the units of a node and its parts.
pub open spec fn holders(
    node: SyntaxNode,
    context: ContextView,
    lines: Seq<LineSpan>,
    renamed: Seq<Seq<char>>,
    imported: Seq<Seq<char>>,
) -> Seq<HolderView>
    decreases node, rust_after(node, context, lines).len() + 1,
{
    let list = rust_after(node, context, lines);
    own_holder(node, context, lines, renamed, imported) + visited_holders(
        node,
        list,
        lines,
        renamed,
        imported,
        list.len(),
    )
}

/// What happens in the units of the first `count` visits from a node.
pub open spec fn visited_holders(
    node: SyntaxNode,
    list: Seq<UnitVisitView>,
    lines: Seq<LineSpan>,
    renamed: Seq<Seq<char>>,
    imported: Seq<Seq<char>>,
    count: nat,
) -> Seq<HolderView>
    decreases node, count,
{
    if count == 0 {
        Seq::empty()
    } else {
        let earlier = visited_holders(node, list, lines, renamed, imported, (count - 1) as nat);
        let visit = list[count - 1];
        if 0 <= visit.child < node.children@.len() {
            earlier + holders(
                node.children@[visit.child],
                visit.context,
                lines,
                renamed,
                imported,
            )
        } else {
            earlier
        }
    }
}

/// What happens in the units of a file.
pub open spec fn file_holders(file: SyntaxNode, lines: Seq<LineSpan>, category: Category) -> Seq<
    HolderView,
> {
    holders(file, outermost(category), lines, used_names(file, true), used_names(file, false))
}

fn push_own_holder(
    node: &SyntaxNode,
    context: &Context,
    table: &LineTable,
    imported: &ImportTable,
    output: &mut Vec<Holder>,
)
    requires
        table.well_formed(),
    ensures
        holder_views(final(output)@) == holder_views(old(output)@) + own_holder(
            *node,
            context@,
            table.lines@,
            texts(imported.aliases@),
            texts(imported.names@),
        ),
{
    let ghost held = holder_views(output@);
    let mut units: Vec<Unit> = Vec::new();
    assert(unit_views(units@) =~= Seq::<UnitView>::empty());
    push_rust_units(node, context, table, &mut units);
    assert(unit_views(units@) =~= rust_units(*node, context@, table.lines@));
    if let Some(index) = find_body_part(node) {
        if units.len() > 0 {
            let body = &node.children[index];
            let unit = &units[0];
            assert(unit_views(units@)[0] == unit@);
            let mut aliases: Vec<String> = Vec::new();
            let mut assignments: Vec<String> = Vec::new();
            assert(texts(aliases@) =~= Seq::<Seq<char>>::empty());
            assert(texts(assignments@) =~= Seq::<Seq<char>>::empty());
            collect_bound_names(body, true, &mut aliases);
            collect_bound_names(body, false, &mut assignments);
            assert(texts(aliases@) =~= bound_names(*body, true));
            assert(texts(assignments@) =~= bound_names(*body, false));
            let own = NameTable { parameters: list_parameter_names(node), aliases, assignments };
            let mut calls: Vec<CallSite> = Vec::new();
            assert(site_views(calls@) =~= Seq::<CallSiteView>::empty());
            collect_calls(body, &own, imported, &mut calls);
            assert(site_views(calls@) =~= calls_in(*body, known_names(own, *imported)));
            let (statements, lists) = list_body(body);
            push_holder(
                output,
                Holder {
                    name: unit.name.clone(),
                    kind: unit.kind,
                    range: unit.full,
                    statements,
                    lists,
                    calls,
                },
            );
        }
    }
    assert(holder_views(output@) =~= held + own_holder(
        *node,
        context@,
        table.lines@,
        texts(imported.aliases@),
        texts(imported.names@),
    ));
}

fn collect_holders(
    node: &SyntaxNode,
    context: &Context,
    table: &LineTable,
    imported: &ImportTable,
    output: &mut Vec<Holder>,
)
    requires
        table.well_formed(),
    ensures
        holder_views(final(output)@) == holder_views(old(output)@) + holders(
            *node,
            context@,
            table.lines@,
            texts(imported.aliases@),
            texts(imported.names@),
        ),
    decreases node,
{
    let ghost held = holder_views(output@);
    let ghost renamed = texts(imported.aliases@);
    let ghost names = texts(imported.names@);
    push_own_holder(node, context, table, imported, output);
    let ghost own = holder_views(output@);
    let list = list_rust_after(node, context, table);
    let ghost visits = visit_views(list@);
    let mut index: usize = 0;
    assert(holder_views(output@) =~= own + visited_holders(
        *node,
        visits,
        table.lines@,
        renamed,
        names,
        0,
    ));
    while index < list.len()
        invariant
            index <= list@.len(),
            table.well_formed(),
            visits == visit_views(list@),
            renamed == texts(imported.aliases@),
            names == texts(imported.names@),
            holder_views(output@) == own + visited_holders(
                *node,
                visits,
                table.lines@,
                renamed,
                names,
                index as nat,
            ),
        decreases list@.len() - index,
    {
        let visit = &list[index];
        assert(visits[index as int] == visit@);
        if visit.child < node.children.len() {
            collect_holders(&node.children[visit.child], &visit.context, table, imported, output);
        }
        index += 1;
        assert(holder_views(output@) =~= own + visited_holders(
            *node,
            visits,
            table.lines@,
            renamed,
            names,
            index as nat,
        ));
    }
    assert(holder_views(output@) =~= held + holders(
        *node,
        context@,
        table.lines@,
        renamed,
        names,
    ));
}

/// Lists what happens in the units of a file.
pub fn list_holders(file: &SyntaxNode, table: &LineTable, category: Category) -> (output: Vec<
    Holder,
>)
    requires
        table.well_formed(),
    ensures
        holder_views(output@) == file_holders(*file, table.lines@, category),
{
    let mut aliases: Vec<String> = Vec::new();
    let mut names: Vec<String> = Vec::new();
    assert(texts(aliases@) =~= Seq::<Seq<char>>::empty());
    assert(texts(names@) =~= Seq::<Seq<char>>::empty());
    collect_used_names(file, true, &mut aliases);
    collect_used_names(file, false, &mut names);
    assert(texts(aliases@) =~= used_names(*file, true));
    assert(texts(names@) =~= used_names(*file, false));
    let imported = ImportTable { aliases, names };
    let context = Context::outermost(category);
    let mut output: Vec<Holder> = Vec::new();
    assert(holder_views(output@) =~= Seq::<HolderView>::empty());
    collect_holders(file, &context, table, &imported, &mut output);
    assert(holder_views(output@) =~= file_holders(*file, table.lines@, category));
    output
}

}
