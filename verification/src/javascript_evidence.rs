//! Calls and statements of JavaScript and TypeScript source.
use vstd::prelude::*;
use crate::evidence::{leaf, leaf_name, CallResolutionReason, LocalCallable};
use crate::frontend_evidence::{
    happening_views, local_of, push_happening, push_site, site_views, CallSite, CallSiteView,
    Happening, HappeningView, StatementSite,
};
use crate::javascript_syntax::{
    counted_loop, function_declaration, function_node, import_or_type, indirect, is_counted_loop,
    is_function_declaration, is_function_node, is_import_or_type, is_indirect, is_passed_over,
    passed_over,
};
use crate::javascript_units::{
    class_property, element_name, find_statements, find_value, is_class_property, name_element,
    own_name, property_value, statements_from,
};
use crate::model::{FunctionKind, FunctionReport, Location};
use crate::signals::{count_scored, scored_count, Signal};
use crate::sums::clipped;
use crate::syntax::{find_named, first_named, SyntaxNode};
use crate::text::{join, joined, same_text, texts};
use crate::units::{
    located, node_range, qualified, qualified_name, span_of, with_scope, ByteRange, SourceMap,
    SourceMapView,
};
use crate::walk::{collect_signals, signals, Dialect};

verus! {

/// The first of the functions from `start` on that has a kind and a place.
pub open spec fn first_placed(
    functions: Seq<FunctionReport>,
    kind: FunctionKind,
    location: Location,
    start: int,
) -> Option<LocalCallable>
    decreases functions.len() - start,
{
    if start < 0 || start >= functions.len() {
        None
    } else if functions[start].kind == kind && functions[start].location == location {
        Some(local_of(functions[start]))
    } else {
        first_placed(functions, kind, location, start + 1)
    }
}

/// The first of the functions from `start` on that has a kind and a name.
pub open spec fn first_called(
    functions: Seq<FunctionReport>,
    kind: FunctionKind,
    name: Seq<char>,
    start: int,
) -> Option<LocalCallable>
    decreases functions.len() - start,
{
    if start < 0 || start >= functions.len() {
        None
    } else if functions[start].kind == kind && functions[start].name@ == name {
        Some(local_of(functions[start]))
    } else {
        first_called(functions, kind, name, start + 1)
    }
}

/// The name of something in nested scopes, or of the scopes where it has none.
pub open spec fn scoped_name(scope: Seq<Seq<char>>, name: Seq<char>) -> Seq<char> {
    if name.len() == 0 {
        joined(scope, "::"@)
    } else {
        qualified(scope, name)
    }
}

/// What the search for the unit of a callable goes by.
pub struct Wanted {
    pub range: ByteRange,
    pub kind: FunctionKind,
    pub name: Seq<char>,
}

/// The unit of a callable: the first of its kind at its place, or else the
/// first of its kind with its name.
pub open spec fn unit_of(
    functions: Seq<FunctionReport>,
    map: SourceMapView,
    scope: Seq<Seq<char>>,
    wanted: Wanted,
) -> Option<LocalCallable> {
    match first_placed(functions, wanted.kind, located(map, wanted.range), 0) {
        Some(owner) => Some(owner),
        None => first_called(functions, wanted.kind, scoped_name(scope, wanted.name), 0),
    }
}

/// How a declaration is exported.
#[derive(Clone, Copy, Debug, PartialEq, Eq, Structural)]
pub enum Export {
    Local,
    Named,
    Standard,
}

/// Where a walk for evidence stands.
#[derive(Clone, Copy, Debug, PartialEq, Eq, Structural)]
pub struct Setting {
    pub export: Export,
    /// Whether the patterns of variable declarations are looked at.
    pub patterns: bool,
}

/// A setting in which nothing particular holds.
pub open spec fn plain_setting() -> Setting {
    Setting { export: Export::Local, patterns: false }
}

/// Whether a node is a callable that has statements of its own.
pub open spec fn callable_node(node: SyntaxNode) -> bool {
    function_node(node) || node.named("ArrowFunctionExpression"@) || node.named(
        "MethodDefinition"@,
    )
}

/// What a part of a node is looked at in, where the walk goes there.
pub open spec fn part_setting(node: SyntaxNode, child: int, setting: Setting) -> Option<Setting> {
    if import_or_type(node) {
        None
    } else if node.named("Class"@) {
        if child == node.children@.len() - 1 {
            Some(plain_setting())
        } else {
            None
        }
    } else if class_property(node) {
        if property_value(node) == Some(child) {
            Some(plain_setting())
        } else {
            None
        }
    } else if node.named("ExportDeclaration"@) {
        Some(Setting { export: Export::Named, patterns: false })
    } else if node.named("ExportDefaultDeclaration"@) {
        Some(Setting { export: Export::Standard, patterns: false })
    } else if counted_loop(node) && child == 0 && node.children@.len() > 1 {
        Some(Setting { export: Export::Local, patterns: true })
    } else if node.named("VariableDeclaration"@) {
        Some(Setting { export: Export::Local, patterns: setting.patterns })
    } else if node.named("VariableDeclarator"@) && setting.patterns {
        Some(plain_setting())
    } else if passed_over(node, child) {
        None
    } else {
        Some(plain_setting())
    }
}

/// What a callee is called, and how far it can be resolved.
pub open spec fn call_target(callee: SyntaxNode) -> (Seq<char>, CallResolutionReason) {
    if callee.named("IdentifierReference"@) {
        (callee.text@, CallResolutionReason::DirectLocal)
    } else if callee.named("StaticMemberExpression"@) && callee.children@.len() > 0 {
        (callee.children@.last().text@, CallResolutionReason::Method)
    } else {
        ("<dynamic>"@, CallResolutionReason::Dynamic)
    }
}

/// What an expression that is called by `new` is called.
pub open spec fn created_name(callee: SyntaxNode) -> Seq<char> {
    if callee.named("IdentifierReference"@) {
        callee.text@
    } else {
        "<dynamic>"@
    }
}

/// The call that a node is itself.
pub open spec fn own_call(node: SyntaxNode) -> Seq<CallSiteView> {
    if node.children@.len() > 0 && node.named("CallExpression"@) {
        let target = call_target(node.children@[0]);
        seq![CallSiteView { name: target.0, reason: target.1, range: node_range(node) }]
    } else if node.children@.len() > 0 && node.named("NewExpression"@) {
        seq![
            CallSiteView {
                name: created_name(node.children@[0]),
                reason: CallResolutionReason::DirectLocal,
                range: node_range(node),
            },
        ]
    } else {
        Seq::empty()
    }
}

/// Whether an expression counts as a signal of the statement that it is.
pub open spec fn counted_expression(node: SyntaxNode) -> bool {
    node.named("BinaryExpression"@) || node.named("AssignmentExpression"@) || node.named(
        "UnaryExpression"@,
    ) || node.named("UpdateExpression"@) || node.named("ComputedMemberExpression"@) || node.named(
        "LogicalExpression"@,
    ) || node.named("ConditionalExpression"@) || node.named("CallExpression"@) || node.named(
        "NewExpression"@,
    )
}

/// How many expressions of a node count, without those of callables in it.
pub open spec fn expression_count(node: SyntaxNode, direct: bool) -> nat
    decreases node, node.children@.len() + 1,
{
    if function_node(node) || node.named("ArrowFunctionExpression"@) || node.named("Class"@) {
        0
    } else {
        (if direct && counted_expression(node) {
            1nat
        } else {
            0nat
        }) + part_count(node, node.children@.len())
    }
}

/// How many expressions of the first `count` parts of a node count.
pub open spec fn part_count(node: SyntaxNode, count: nat) -> nat
    decreases node, count,
{
    if count == 0 || count > node.children@.len() {
        0
    } else {
        part_count(node, (count - 1) as nat) + expression_count(
            node.children@[count - 1],
            !indirect(node, count - 1),
        )
    }
}

/// How many signals of a statement are scored.
pub open spec fn statement_score(statement: SyntaxNode) -> usize {
    let list = signals(Dialect::JavaScript, statement, 0);
    scored_count(list, list.len()) as usize
}

/// Whether a statement is no more than a callable.
pub open spec fn callable_statement(statement: SyntaxNode) -> bool {
    function_declaration(statement) || statement.named("Class"@)
}

/// The statements among the first `count` parts of a body, from `start` on.
pub open spec fn listed_statements(body: SyntaxNode, start: nat, count: nat) -> Seq<StatementSite>
    decreases count,
{
    if count <= start {
        Seq::empty()
    } else {
        let earlier = listed_statements(body, start, (count - 1) as nat);
        let statement = body.children@[count - 1];
        if callable_statement(statement) {
            earlier
        } else {
            earlier.push(
                StatementSite {
                    sequence: 0,
                    ordinal: earlier.len() as usize,
                    range: node_range(statement),
                    scored_signals: statement_score(statement),
                },
            )
        }
    }
}

/// The statements of a list of statements.
pub open spec fn body_sites(body: SyntaxNode) -> Seq<StatementSite> {
    listed_statements(body, statements_from(body.children@, 0), body.children@.len())
}

/// The statements of a body: those it lists, or the expression that it is.
pub open spec fn statement_sites(body: SyntaxNode) -> Seq<StatementSite> {
    if body.named("FunctionBody"@) || body.named("Program"@) {
        body_sites(body)
    } else {
        seq![
            StatementSite {
                sequence: 0,
                ordinal: 0,
                range: node_range(body),
                scored_signals: clipped(expression_count(body, true)),
            },
        ]
    }
}

/// What is met of a body itself.
pub open spec fn body_met(owner: LocalCallable, body: SyntaxNode) -> HappeningView {
    HappeningView::Body { owner, statements: statement_sites(body) }
}

/// What is met of the call that a node is itself, where it belongs to a unit.
pub open spec fn call_met(owner: Option<LocalCallable>, node: SyntaxNode) -> Seq<HappeningView> {
    match owner {
        Some(unit) => own_call(node).map_values(
            |site: CallSiteView| HappeningView::Call { owner: unit, site },
        ),
        None => Seq::empty(),
    }
}

/// The kind of the unit that a walk is in.
pub open spec fn kind_of(owner: Option<LocalCallable>) -> Option<FunctionKind> {
    match owner {
        Some(unit) => Some(unit.kind),
        None => None,
    }
}

/// The kind under which the unit of a function is looked for.
pub open spec fn sought_kind(
    node: SyntaxNode,
    export: Export,
    current: Option<FunctionKind>,
) -> FunctionKind {
    if !function_declaration(node) {
        FunctionKind::Closure
    } else {
        let nested = match export {
            Export::Local => current == Some(FunctionKind::Function) || current == Some(
                FunctionKind::NestedFunction,
            ),
            Export::Named => current is Some,
            Export::Standard => false,
        };
        if nested {
            FunctionKind::NestedFunction
        } else {
            FunctionKind::Function
        }
    }
}

/// The name under which the unit of a function is looked for.
pub open spec fn sought_name(node: SyntaxNode) -> Seq<char> {
    if function_declaration(node) {
        match own_name(node) {
            Some(name) => name,
            None => Seq::empty(),
        }
    } else {
        Seq::empty()
    }
}

/// What the search for the unit of a callable goes by.
pub open spec fn wanted(
    node: SyntaxNode,
    export: Export,
    current: Option<FunctionKind>,
) -> Wanted {
    if node.named("MethodDefinition"@) {
        Wanted { range: node_range(node), kind: FunctionKind::Method, name: element_name(node) }
    } else {
        Wanted {
            range: node_range(node),
            kind: sought_kind(node, export, current),
            name: sought_name(node),
        }
    }
}

/// Which part of a callable leads to its body: the body itself, or the
/// function of a method.
pub open spec fn body_part(node: SyntaxNode) -> Option<int> {
    if node.named("ArrowFunctionExpression"@) || node.named("MethodDefinition"@) {
        if node.children@.len() > 0 {
            Some(node.children@.len() - 1)
        } else {
            None
        }
    } else {
        first_named(node.children@, "FunctionBody"@, 0)
    }
}

/// What is met in the part that leads to the body of a callable.
pub open spec fn met_in_body(
    functions: Seq<FunctionReport>,
    map: SourceMapView,
    part: SyntaxNode,
    method: bool,
    owner: LocalCallable,
    scope: Seq<Seq<char>>,
) -> Seq<HappeningView>
    decreases part, part.children@.len() + 2,
{
    let inner = scope.push(leaf(owner.name@));
    if method {
        match first_named(part.children@, "FunctionBody"@, 0) {
            Some(index) => if 0 <= index < part.children@.len() {
                seq![body_met(owner, part.children@[index])] + met_in(
                    functions,
                    map,
                    part.children@[index],
                    plain_setting(),
                    Some(owner),
                    inner,
                )
            } else {
                Seq::empty()
            },
            None => Seq::empty(),
        }
    } else {
        seq![body_met(owner, part)] + met_in(
            functions,
            map,
            part,
            plain_setting(),
            Some(owner),
            inner,
        )
    }
}

/// What is met in a node, in the order of the walk. A callable without a unit is
/// passed over.
pub open spec fn met_in(
    functions: Seq<FunctionReport>,
    map: SourceMapView,
    node: SyntaxNode,
    setting: Setting,
    current: Option<LocalCallable>,
    scope: Seq<Seq<char>>,
) -> Seq<HappeningView>
    decreases node, node.children@.len() + 1,
{
    if callable_node(node) {
        match (
            unit_of(functions, map, scope, wanted(node, setting.export, kind_of(current))),
            body_part(node),
        ) {
            (Some(owner), Some(index)) => if 0 <= index < node.children@.len() {
                met_in_body(
                    functions,
                    map,
                    node.children@[index],
                    node.named("MethodDefinition"@),
                    owner,
                    scope,
                )
            } else {
                Seq::empty()
            },
            _ => Seq::empty(),
        }
    } else {
        call_met(current, node) + met_in_parts(
            functions,
            map,
            node,
            setting,
            current,
            scope,
            node.children@.len(),
        )
    }
}

/// What is met in the first `count` parts of a node.
pub open spec fn met_in_parts(
    functions: Seq<FunctionReport>,
    map: SourceMapView,
    node: SyntaxNode,
    setting: Setting,
    current: Option<LocalCallable>,
    scope: Seq<Seq<char>>,
    count: nat,
) -> Seq<HappeningView>
    decreases node, count,
{
    if count == 0 || count > node.children@.len() {
        Seq::empty()
    } else {
        let earlier = met_in_parts(
            functions,
            map,
            node,
            setting,
            current,
            scope,
            (count - 1) as nat,
        );
        match part_setting(node, count - 1, setting) {
            Some(inner) => earlier + met_in(
                functions,
                map,
                node.children@[count - 1],
                inner,
                current,
                scope,
            ),
            None => earlier,
        }
    }
}

/// What is met in a module.
pub open spec fn met_in_program(
    functions: Seq<FunctionReport>,
    map: SourceMapView,
    program: SyntaxNode,
    length: usize,
) -> Seq<HappeningView> {
    let module = Wanted {
        range: ByteRange { start: 0, end: length },
        kind: FunctionKind::ModuleInitializer,
        name: "<module>"@,
    };
    match unit_of(functions, map, Seq::empty(), module) {
        Some(owner) => seq![body_met(owner, program)] + met_in(
            functions,
            map,
            program,
            plain_setting(),
            Some(owner),
            Seq::empty(),
        ),
        None => met_in(functions, map, program, plain_setting(), None, Seq::empty()),
    }
}

fn local_callable(function: &FunctionReport) -> (local: LocalCallable)
    ensures
        local == local_of(*function),
{
    LocalCallable {
        name: function.name.clone(),
        kind: function.kind,
        category: function.category,
        location: function.location,
    }
}

fn find_placed(functions: &Vec<FunctionReport>, kind: FunctionKind, location: Location) -> (found:
    Option<LocalCallable>)
    ensures
        found == first_placed(functions@, kind, location, 0),
{
    let mut index: usize = 0;
    while index < functions.len()
        invariant
            index <= functions@.len(),
            first_placed(functions@, kind, location, 0) == first_placed(
                functions@,
                kind,
                location,
                index as int,
            ),
        decreases functions@.len() - index,
    {
        if functions[index].kind == kind && functions[index].location == location {
            return Some(local_callable(&functions[index]));
        }
        index += 1;
    }
    None
}

fn find_called(functions: &Vec<FunctionReport>, kind: FunctionKind, name: &str) -> (found: Option<
    LocalCallable,
>)
    ensures
        found == first_called(functions@, kind, name@, 0),
{
    let mut index: usize = 0;
    while index < functions.len()
        invariant
            index <= functions@.len(),
            first_called(functions@, kind, name@, 0) == first_called(
                functions@,
                kind,
                name@,
                index as int,
            ),
        decreases functions@.len() - index,
    {
        if functions[index].kind == kind && same_text(functions[index].name.as_str(), name) {
            return Some(local_callable(&functions[index]));
        }
        index += 1;
    }
    None
}

fn find_owner(
    functions: &Vec<FunctionReport>,
    map: &SourceMap,
    scope: &Vec<String>,
    range: ByteRange,
    kind: FunctionKind,
    name: &str,
) -> (found: Option<LocalCallable>)
    requires
        map.well_formed(),
    ensures
        found == unit_of(functions@, map@, texts(scope@), (Wanted { range, kind, name: name@ })),
{
    match find_placed(functions, kind, map.locate(range)) {
        Some(owner) => Some(owner),
        None => {
            let full = if is_empty_text(name) {
                join(scope, "::")
            } else {
                qualified_name(scope, name)
            };
            find_called(functions, kind, full.as_str())
        },
    }
}

fn is_empty_text(text: &str) -> (answer: bool)
    ensures
        answer == (text@.len() == 0),
{
    proof {
        reveal_strlit("");
    }
    let answer = same_text(text, "");
    assert(answer == (text@ =~= ""@));
    answer
}

fn is_callable_node(node: &SyntaxNode) -> (answer: bool)
    ensures
        answer == callable_node(*node),
{
    is_function_node(node) || node.is("ArrowFunctionExpression") || node.is("MethodDefinition")
}

fn find_setting(node: &SyntaxNode, child: usize, setting: Setting) -> (found: Option<Setting>)
    requires
        child < node.children@.len(),
    ensures
        found == part_setting(*node, child as int, setting),
{
    let plain = Setting { export: Export::Local, patterns: false };
    if is_import_or_type(node) {
        None
    } else if node.is("Class") {
        if child == node.children.len() - 1 {
            Some(plain)
        } else {
            None
        }
    } else if is_class_property(node) {
        let is_value: bool = match find_value(node) {
            Some(index) => index == child,
            None => false,
        };
        if is_value {
            Some(plain)
        } else {
            None
        }
    } else if node.is("ExportDeclaration") {
        Some(Setting { export: Export::Named, patterns: false })
    } else if node.is("ExportDefaultDeclaration") {
        Some(Setting { export: Export::Standard, patterns: false })
    } else if is_counted_loop(node) && child == 0 && node.children.len() > 1 {
        Some(Setting { export: Export::Local, patterns: true })
    } else if node.is("VariableDeclaration") {
        Some(Setting { export: Export::Local, patterns: setting.patterns })
    } else if node.is("VariableDeclarator") && setting.patterns {
        Some(plain)
    } else if is_passed_over(node, child) {
        None
    } else {
        Some(plain)
    }
}

fn push_own_call(node: &SyntaxNode, calls: &mut Vec<CallSite>)
    ensures
        site_views(final(calls)@) == site_views(old(calls)@) + own_call(*node),
{
    let ghost held = site_views(calls@);
    if node.children.len() > 0 {
        let callee = &node.children[0];
        let known: bool = callee.is("IdentifierReference");
        if node.is("CallExpression") {
            if known {
                push_site(
                    calls,
                    callee.text.clone(),
                    CallResolutionReason::DirectLocal,
                    span_of(node),
                );
            } else if callee.is("StaticMemberExpression") && callee.children.len() > 0 {
                push_site(
                    calls,
                    callee.children[callee.children.len() - 1].text.clone(),
                    CallResolutionReason::Method,
                    span_of(node),
                );
            } else {
                push_site(
                    calls,
                    "<dynamic>".to_owned(),
                    CallResolutionReason::Dynamic,
                    span_of(node),
                );
            }
        } else if node.is("NewExpression") {
            let name = if known {
                callee.text.clone()
            } else {
                "<dynamic>".to_owned()
            };
            push_site(calls, name, CallResolutionReason::DirectLocal, span_of(node));
        }
    }
    assert(site_views(calls@) =~= held + own_call(*node));
}

fn push_call(owner: &Option<LocalCallable>, node: &SyntaxNode, list: &mut Vec<Happening>)
    ensures
        happening_views(final(list)@) == happening_views(old(list)@) + call_met(*owner, *node),
{
    let ghost before = happening_views(list@);
    if let Some(unit) = owner {
        let mut sites: Vec<CallSite> = Vec::new();
        assert(site_views(sites@) =~= Seq::<CallSiteView>::empty());
        push_own_call(node, &mut sites);
        assert(site_views(sites@) =~= own_call(*node));
        if let Some(site) = sites.pop() {
            assert(own_call(*node).len() == 1);
            assert(site@ == own_call(*node)[0]);
            push_happening(list, Happening::Call { owner: unit.clone(), site });
        } else {
            assert(own_call(*node).len() == 0);
        }
    }
    assert(happening_views(list@) =~= before + call_met(*owner, *node));
}

fn is_counted_expression(node: &SyntaxNode) -> (answer: bool)
    ensures
        answer == counted_expression(*node),
{
    node.is("BinaryExpression") || node.is("AssignmentExpression") || node.is("UnaryExpression")
        || node.is("UpdateExpression") || node.is("ComputedMemberExpression") || node.is(
        "LogicalExpression",
    ) || node.is("ConditionalExpression") || node.is("CallExpression") || node.is("NewExpression")
}

fn count_expressions(node: &SyntaxNode, direct: bool) -> (number: usize)
    ensures
        number == clipped(expression_count(*node, direct)),
    decreases node,
{
    if is_function_node(node) || node.is("ArrowFunctionExpression") || node.is("Class") {
        return 0;
    }
    let own: usize = if direct && is_counted_expression(node) {
        1
    } else {
        0
    };
    let parts = &node.children;
    let mut number: usize = 0;
    let mut index: usize = 0;
    while index < parts.len()
        invariant
            index <= parts@.len(),
            parts@ == node.children@,
            number == clipped(part_count(*node, index as nat)),
        decreases parts@.len() - index,
    {
        let added: usize = count_expressions(&parts[index], !is_indirect(node, index));
        number = number.saturating_add(added);
        index += 1;
    }
    own.saturating_add(number)
}

fn score_statement(statement: &SyntaxNode) -> (number: usize)
    ensures
        number == statement_score(*statement),
{
    let mut list: Vec<Signal> = Vec::new();
    collect_signals(Dialect::JavaScript, statement, 0, &mut list);
    assert(list@ =~= signals(Dialect::JavaScript, *statement, 0));
    count_scored(&list)
}

fn is_callable_statement(statement: &SyntaxNode) -> (answer: bool)
    ensures
        answer == callable_statement(*statement),
{
    is_function_declaration(statement) || statement.is("Class")
}

fn list_statements(body: &SyntaxNode) -> (sites: Vec<StatementSite>)
    ensures
        sites@ == body_sites(*body),
{
    let mut sites: Vec<StatementSite> = Vec::new();
    let parts = &body.children;
    let start: usize = find_statements(parts);
    let mut index: usize = start;
    while index < parts.len()
        invariant
            start <= index <= parts@.len(),
            parts@ == body.children@,
            sites@ == listed_statements(*body, start as nat, index as nat),
        decreases parts@.len() - index,
    {
        let statement = &parts[index];
        if !is_callable_statement(statement) {
            let ordinal: usize = sites.len();
            sites.push(
                StatementSite {
                    sequence: 0,
                    ordinal,
                    range: span_of(statement),
                    scored_signals: score_statement(statement),
                },
            );
        }
        index += 1;
    }
    sites
}

fn list_body(body: &SyntaxNode) -> (sites: Vec<StatementSite>)
    ensures
        sites@ == statement_sites(*body),
{
    if body.is("FunctionBody") || body.is("Program") {
        return list_statements(body);
    }
    let mut sites: Vec<StatementSite> = Vec::new();
    sites.push(
        StatementSite {
            sequence: 0,
            ordinal: 0,
            range: span_of(body),
            scored_signals: count_expressions(body, true),
        },
    );
    assert(sites@ =~= statement_sites(*body));
    sites
}

fn meet_body(owner: &LocalCallable, body: &SyntaxNode) -> (happening: Happening)
    ensures
        happening@ == body_met(*owner, *body),
{
    Happening::Body { owner: owner.clone(), statements: list_body(body) }
}

fn find_sought_kind(node: &SyntaxNode, export: Export, current: Option<FunctionKind>) -> (kind:
    FunctionKind)
    ensures
        kind == sought_kind(*node, export, current),
{
    if !is_function_declaration(node) {
        return FunctionKind::Closure;
    }
    let nested: bool = match export {
        Export::Local => match current {
            Some(kind) => kind == FunctionKind::Function || kind == FunctionKind::NestedFunction,
            None => false,
        },
        Export::Named => current.is_some(),
        Export::Standard => false,
    };
    if nested {
        FunctionKind::NestedFunction
    } else {
        FunctionKind::Function
    }
}

fn find_sought_name(node: &SyntaxNode) -> (name: String)
    ensures
        name@ == sought_name(*node),
{
    if is_function_declaration(node) {
        if let Some(index) = find_named(&node.children, "BindingIdentifier") {
            return node.children[index].text.clone();
        }
    }
    String::new()
}

fn find_body_part(node: &SyntaxNode) -> (part: Option<usize>)
    ensures
        match (part, body_part(*node)) {
            (Some(index), Some(expected)) => index == expected && index < node.children@.len(),
            (None, None) => true,
            _ => false,
        },
{
    if node.is("ArrowFunctionExpression") || node.is("MethodDefinition") {
        if node.children.len() > 0 {
            Some(node.children.len() - 1)
        } else {
            None
        }
    } else {
        find_named(&node.children, "FunctionBody")
    }
}

fn collect_in_body(
    functions: &Vec<FunctionReport>,
    map: &SourceMap,
    part: &SyntaxNode,
    method: bool,
    owner: LocalCallable,
    scope: &Vec<String>,
    list: &mut Vec<Happening>,
)
    requires
        map.well_formed(),
    ensures
        happening_views(final(list)@) == happening_views(old(list)@) + met_in_body(
            functions@,
            map@,
            *part,
            method,
            owner,
            texts(scope@),
        ),
    decreases part, 2nat,
{
    let ghost before = happening_views(list@);
    let plain = Setting { export: Export::Local, patterns: false };
    let inner_name = leaf_name(owner.name.as_str());
    let inner = with_scope(scope, inner_name.as_str());
    if method {
        if let Some(index) = find_named(&part.children, "FunctionBody") {
            let body = &part.children[index];
            push_happening(list, meet_body(&owner, body));
            collect_met(functions, map, body, plain, &Some(owner), &inner, list);
        }
    } else {
        push_happening(list, meet_body(&owner, part));
        collect_met(functions, map, part, plain, &Some(owner), &inner, list);
    }
    assert(happening_views(list@) =~= before + met_in_body(
        functions@,
        map@,
        *part,
        method,
        owner,
        texts(scope@),
    ));
}

fn collect_callable(
    functions: &Vec<FunctionReport>,
    map: &SourceMap,
    node: &SyntaxNode,
    setting: Setting,
    current: &Option<LocalCallable>,
    scope: &Vec<String>,
    list: &mut Vec<Happening>,
)
    requires
        map.well_formed(),
        callable_node(*node),
    ensures
        happening_views(final(list)@) == happening_views(old(list)@) + met_in(
            functions@,
            map@,
            *node,
            setting,
            *current,
            texts(scope@),
        ),
    decreases node, 0nat,
{
    let ghost before = happening_views(list@);
    let around: Option<FunctionKind> = match current {
        Some(unit) => Some(unit.kind),
        None => None,
    };
    let method: bool = node.is("MethodDefinition");
    let owner = if method {
        let name = name_element(node);
        find_owner(functions, map, scope, span_of(node), FunctionKind::Method, name.as_str())
    } else {
        let kind = find_sought_kind(node, setting.export, around);
        let name = find_sought_name(node);
        find_owner(functions, map, scope, span_of(node), kind, name.as_str())
    };
    assert(owner == unit_of(
        functions@,
        map@,
        texts(scope@),
        wanted(*node, setting.export, kind_of(*current)),
    ));
    if let Some(unit) = owner {
        if let Some(index) = find_body_part(node) {
            let part = &node.children[index];
            collect_in_body(functions, map, part, method, unit, scope, list);
        }
    }
    assert(happening_views(list@) =~= before + met_in(
        functions@,
        map@,
        *node,
        setting,
        *current,
        texts(scope@),
    ));
}

fn collect_met(
    functions: &Vec<FunctionReport>,
    map: &SourceMap,
    node: &SyntaxNode,
    setting: Setting,
    current: &Option<LocalCallable>,
    scope: &Vec<String>,
    list: &mut Vec<Happening>,
)
    requires
        map.well_formed(),
    ensures
        happening_views(final(list)@) == happening_views(old(list)@) + met_in(
            functions@,
            map@,
            *node,
            setting,
            *current,
            texts(scope@),
        ),
    decreases node, 1nat,
{
    if is_callable_node(node) {
        collect_callable(functions, map, node, setting, current, scope, list);
        return ;
    }
    let ghost start = happening_views(list@);
    push_call(current, node, list);
    let ghost before = happening_views(list@);
    let ghost names = texts(scope@);
    let parts = &node.children;
    let mut index: usize = 0;
    assert(happening_views(list@) =~= before + met_in_parts(
        functions@,
        map@,
        *node,
        setting,
        *current,
        names,
        0,
    ));
    while index < parts.len()
        invariant
            index <= parts@.len(),
            parts@ == node.children@,
            map.well_formed(),
            names == texts(scope@),
            happening_views(list@) == before + met_in_parts(
                functions@,
                map@,
                *node,
                setting,
                *current,
                names,
                index as nat,
            ),
        decreases parts@.len() - index,
    {
        if let Some(inner) = find_setting(node, index, setting) {
            collect_met(functions, map, &parts[index], inner, current, scope, list);
        }
        index += 1;
        assert(happening_views(list@) =~= before + met_in_parts(
            functions@,
            map@,
            *node,
            setting,
            *current,
            names,
            index as nat,
        ));
    }
    assert(happening_views(list@) =~= start + met_in(
        functions@,
        map@,
        *node,
        setting,
        *current,
        names,
    ));
}

/// Lists what is met in a module.
pub fn list_met(
    functions: &Vec<FunctionReport>,
    map: &SourceMap,
    program: &SyntaxNode,
    length: usize,
) -> (list: Vec<Happening>)
    requires
        map.well_formed(),
    ensures
        happening_views(list@) == met_in_program(functions@, map@, *program, length),
{
    let mut list: Vec<Happening> = Vec::new();
    let scope: Vec<String> = Vec::new();
    assert(happening_views(list@) =~= Seq::<HappeningView>::empty());
    assert(texts(scope@) =~= Seq::<Seq<char>>::empty());
    let plain = Setting { export: Export::Local, patterns: false };
    let full = ByteRange { start: 0, end: length };
    let module = FunctionKind::ModuleInitializer;
    match find_owner(functions, map, &scope, full, module, "<module>") {
        Some(owner) => {
            push_happening(&mut list, meet_body(&owner, program));
            collect_met(functions, map, program, plain, &Some(owner), &scope, &mut list);
        },
        None => {
            collect_met(functions, map, program, plain, &None, &scope, &mut list);
        },
    }
    assert(happening_views(list@) =~= met_in_program(functions@, map@, *program, length));
    list
}

}
