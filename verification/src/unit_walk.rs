//! Walking syntax trees for callable units, with the scope at hand.
//!
//! A dialect says of each node which units it is itself, and how the walk goes
//! on from it: which parts are met before those units, and which after.
use vstd::prelude::*;
use vstd::string::StringExecFns;
use crate::javascript_units::{
    javascript_after, javascript_before, javascript_units, list_javascript_after,
    list_javascript_before, push_javascript_units,
};
use crate::model::Category;
use crate::python_units::{list_python_after, push_python_units, python_after, python_own_units};
use crate::rust_units::{list_rust_after, push_rust_units, rust_after, rust_units};
use crate::spans::{position_at, LineSpan, LineTable};
use crate::syntax::SyntaxNode;
use crate::text::{decimal, push_decimal, texts};
use crate::units::{unit_views, with_scope, Unit, UnitView};
use crate::walk::{Dialect, Step};

verus! {

/// How a callable without a name is called: by where it stands.
pub open spec fn closure_label(node: SyntaxNode, lines: Seq<LineSpan>) -> Seq<char> {
    let start = position_at(lines, node.start);
    "<closure@"@ + decimal(start.line as nat) + ":"@ + decimal(start.column as nat) + ">"@
}

pub(crate) fn label_closure(node: &SyntaxNode, table: &LineTable) -> (label: String)
    requires
        table.well_formed(),
    ensures
        label@ == closure_label(*node, table.lines@),
{
    let start = table.position(node.start);
    let mut label = "<closure@".to_owned();
    push_decimal(&mut label, start.line);
    label.append(":");
    push_decimal(&mut label, start.column);
    label.append(">");
    label
}

/// What a definition stands directly in.
#[derive(Clone, Copy, Debug, PartialEq, Eq, Structural)]
pub enum ScopeKind {
    Module,
    Class,
    Function,
}

/// What of a node is looked at.
#[derive(Clone, Copy, Debug, PartialEq, Eq, Structural)]
pub enum Part {
    /// All of it.
    Whole,
    /// Of a class, what names and decorates its properties.
    Keys,
    /// Of a function, its body.
    Body,
    /// Of a parameter, its default.
    Default,
}

/// Where a walk for units stands.
#[derive(Debug)]
pub struct Context {
    pub depth: usize,
    pub scope: Vec<String>,
    pub place: ScopeKind,
    /// What a callable that stands right here is called.
    pub hint: Option<String>,
    pub part: Part,
    pub category: Category,
}

/// The plain content of a context.
pub struct ContextView {
    pub depth: usize,
    pub scope: Seq<Seq<char>>,
    pub place: ScopeKind,
    pub hint: Option<Seq<char>>,
    pub part: Part,
    pub category: Category,
}

/// The plain content of a text that may be missing.
pub open spec fn text_option(text: Option<String>) -> Option<Seq<char>> {
    match text {
        Some(content) => Some(content@),
        None => None,
    }
}

impl View for Context {
    type V = ContextView;

    open spec fn view(&self) -> ContextView {
        ContextView {
            depth: self.depth,
            scope: texts(self.scope@),
            place: self.place,
            hint: text_option(self.hint),
            part: self.part,
            category: self.category,
        }
    }
}

impl ContextView {
    /// The same place, for a part of what stands there.
    pub open spec fn part(self, depth: usize, hint: Option<Seq<char>>, part: Part) -> ContextView {
        ContextView { depth, hint, part, ..self }
    }

    /// One scope further in.
    pub open spec fn inside(
        self,
        depth: usize,
        name: Seq<char>,
        place: ScopeKind,
        part: Part,
    ) -> ContextView {
        ContextView {
            depth,
            scope: self.scope.push(name),
            place,
            hint: None,
            part,
            category: self.category,
        }
    }
}

impl Context {
    pub fn outermost(category: Category) -> (context: Context)
        ensures
            context@ == outermost(category),
    {
        let scope: Vec<String> = Vec::new();
        assert(texts(scope@) =~= Seq::<Seq<char>>::empty());
        Context {
            depth: 0,
            scope,
            place: ScopeKind::Module,
            hint: None,
            part: Part::Whole,
            category,
        }
    }

    pub fn in_place(&self, place: ScopeKind) -> (context: Context)
        ensures
            context@ == (ContextView { place, hint: None, part: Part::Whole, ..self@ }),
    {
        let scope = self.scope.clone();
        assert(scope@ =~= self.scope@);
        Context {
            depth: self.depth,
            scope,
            place,
            hint: None,
            part: Part::Whole,
            category: self.category,
        }
    }

    pub fn for_part(&self, depth: usize, hint: Option<String>, part: Part) -> (context: Context)
        ensures
            context@ == self@.part(depth, text_option(hint), part),
    {
        let scope = self.scope.clone();
        assert(scope@ =~= self.scope@);
        Context { depth, scope, place: self.place, hint, part, category: self.category }
    }

    pub fn for_inside(&self, depth: usize, name: &str, place: ScopeKind, part: Part) -> (context:
        Context)
        ensures
            context@ == self@.inside(depth, name@, place, part),
    {
        Context {
            depth,
            scope: with_scope(&self.scope, name),
            place,
            hint: None,
            part,
            category: self.category,
        }
    }
}

/// Where a walk of a module starts.
pub open spec fn outermost(category: Category) -> ContextView {
    ContextView {
        depth: 0,
        scope: Seq::empty(),
        place: ScopeKind::Module,
        hint: None,
        part: Part::Whole,
        category,
    }
}

/// One step of a walk for units: to which part, and where it stands.
#[derive(Debug)]
pub struct UnitVisit {
    pub child: usize,
    pub context: Context,
}

/// The plain content of a visit.
pub struct UnitVisitView {
    pub child: int,
    pub context: ContextView,
}

impl View for UnitVisit {
    type V = UnitVisitView;

    open spec fn view(&self) -> UnitVisitView {
        UnitVisitView { child: self.child as int, context: self.context@ }
    }
}

/// The plain contents of visits.
pub open spec fn visit_views(list: Seq<UnitVisit>) -> Seq<UnitVisitView> {
    list.map_values(|visit: UnitVisit| visit@)
}

pub fn push_visit(list: &mut Vec<UnitVisit>, child: usize, context: Context)
    ensures
        visit_views(final(list)@) == visit_views(old(list)@).push(
            UnitVisitView { child: child as int, context: context@ },
        ),
{
    let ghost held = visit_views(list@);
    let visit = UnitVisit { child, context };
    let ghost added = visit@;
    list.push(visit);
    assert(visit_views(list@) =~= held.push(added));
}

/// Steps as visits of whole parts, or of some of them where they are quiet.
pub open spec fn visits_of(list: Seq<Step>, context: ContextView, quiet: Part) -> Seq<
    UnitVisitView,
> {
    list.map_values(
        |step: Step|
            UnitVisitView {
                child: step.child as int,
                context: context.part(
                    step.depth,
                    None,
                    if step.quiet {
                        quiet
                    } else {
                        Part::Whole
                    },
                ),
            },
    )
}

pub fn push_steps(list: &mut Vec<UnitVisit>, steps: &Vec<Step>, context: &Context, quiet: Part)
    ensures
        visit_views(final(list)@) == visit_views(old(list)@) + visits_of(steps@, context@, quiet),
{
    let ghost held = visit_views(list@);
    let mut index: usize = 0;
    assert(visit_views(list@) =~= held + visits_of(steps@, context@, quiet).take(0));
    while index < steps.len()
        invariant
            index <= steps@.len(),
            visit_views(list@) == held + visits_of(steps@, context@, quiet).take(index as int),
        decreases steps@.len() - index,
    {
        let step = steps[index];
        let part: Part = if step.quiet {
            quiet
        } else {
            Part::Whole
        };
        push_visit(list, step.child, context.for_part(step.depth, None, part));
        index += 1;
        assert(visit_views(list@) =~= held + visits_of(steps@, context@, quiet).take(index as int));
    }
    assert(visits_of(steps@, context@, quiet).take(index as int) =~= visits_of(steps@, context@, quiet));
}

/// The units that a node is itself.
pub open spec fn own_units(
    dialect: Dialect,
    node: SyntaxNode,
    context: ContextView,
    lines: Seq<LineSpan>,
) -> Seq<UnitView> {
    match dialect {
        Dialect::JavaScript => javascript_units(node, context, lines),
        Dialect::Python => python_own_units(node, context, lines),
        Dialect::Rust => rust_units(node, context, lines),
    }
}

/// The parts of a node that are met before its own units.
pub open spec fn visits_before(
    dialect: Dialect,
    node: SyntaxNode,
    context: ContextView,
) -> Seq<UnitVisitView> {
    match dialect {
        Dialect::JavaScript => javascript_before(node, context),
        Dialect::Python | Dialect::Rust => Seq::empty(),
    }
}

/// The parts of a node that are met after its own units.
pub open spec fn visits_after(
    dialect: Dialect,
    node: SyntaxNode,
    context: ContextView,
    lines: Seq<LineSpan>,
) -> Seq<UnitVisitView> {
    match dialect {
        Dialect::JavaScript => javascript_after(node, context, lines),
        Dialect::Python => python_after(node, context, lines),
        Dialect::Rust => rust_after(node, context, lines),
    }
}

/// The units of a node and its parts, in the order of the walk.
pub open spec fn walk_units(
    dialect: Dialect,
    node: SyntaxNode,
    context: ContextView,
    lines: Seq<LineSpan>,
) -> Seq<UnitView>
    decreases
            node,
            visits_before(dialect, node, context).len() + visits_after(
                dialect,
                node,
                context,
                lines,
            ).len() + 1,
{
    let before = visits_before(dialect, node, context);
    let after = visits_after(dialect, node, context, lines);
    visited_units(dialect, node, before, lines, before.len()) + own_units(
        dialect,
        node,
        context,
        lines,
    ) + visited_units(dialect, node, after, lines, after.len())
}

/// The units of the first `count` visits from a node.
pub open spec fn visited_units(
    dialect: Dialect,
    node: SyntaxNode,
    list: Seq<UnitVisitView>,
    lines: Seq<LineSpan>,
    count: nat,
) -> Seq<UnitView>
    decreases node, count,
{
    if count == 0 {
        Seq::empty()
    } else {
        let earlier = visited_units(dialect, node, list, lines, (count - 1) as nat);
        let visit = list[count - 1];
        if 0 <= visit.child < node.children@.len() {
            earlier + walk_units(dialect, node.children@[visit.child], visit.context, lines)
        } else {
            earlier
        }
    }
}

fn list_before(dialect: Dialect, node: &SyntaxNode, context: &Context) -> (list: Vec<
    UnitVisit,
>)
    ensures
        visit_views(list@) == visits_before(dialect, *node, context@),
{
    match dialect {
        Dialect::JavaScript => list_javascript_before(node, context),
        Dialect::Python | Dialect::Rust => {
            let list: Vec<UnitVisit> = Vec::new();
            assert(visit_views(list@) =~= Seq::<UnitVisitView>::empty());
            list
        },
    }
}

fn list_after(
    dialect: Dialect,
    node: &SyntaxNode,
    context: &Context,
    table: &LineTable,
) -> (list: Vec<UnitVisit>)
    requires
        table.well_formed(),
    ensures
        visit_views(list@) == visits_after(dialect, *node, context@, table.lines@),
{
    match dialect {
        Dialect::JavaScript => list_javascript_after(node, context, table),
        Dialect::Python => list_python_after(node, context, table),
        Dialect::Rust => list_rust_after(node, context, table),
    }
}

fn push_own_units(
    dialect: Dialect,
    node: &SyntaxNode,
    context: &Context,
    table: &LineTable,
    output: &mut Vec<Unit>,
)
    requires
        table.well_formed(),
    ensures
        unit_views(final(output)@) == unit_views(old(output)@) + own_units(
            dialect,
            *node,
            context@,
            table.lines@,
        ),
{
    match dialect {
        Dialect::JavaScript => push_javascript_units(node, context, table, output),
        Dialect::Python => push_python_units(node, context, table, output),
        Dialect::Rust => push_rust_units(node, context, table, output),
    }
}

fn collect_visits(
    dialect: Dialect,
    node: &SyntaxNode,
    list: &Vec<UnitVisit>,
    table: &LineTable,
    output: &mut Vec<Unit>,
)
    requires
        table.well_formed(),
    ensures
        unit_views(final(output)@) == unit_views(old(output)@) + visited_units(
            dialect,
            *node,
            visit_views(list@),
            table.lines@,
            list@.len(),
        ),
    decreases node, 0nat,
{
    let ghost held = unit_views(output@);
    let ghost visits = visit_views(list@);
    let mut index: usize = 0;
    assert(unit_views(output@) =~= held + visited_units(dialect, *node, visits, table.lines@, 0));
    while index < list.len()
        invariant
            index <= list@.len(),
            table.well_formed(),
            visits == visit_views(list@),
            unit_views(output@) == held + visited_units(
                dialect,
                *node,
                visits,
                table.lines@,
                index as nat,
            ),
        decreases list@.len() - index,
    {
        let visit = &list[index];
        assert(visits[index as int] == visit@);
        if visit.child < node.children.len() {
            collect_walk(dialect, &node.children[visit.child], &visit.context, table, output);
        }
        index += 1;
        assert(unit_views(output@) =~= held + visited_units(
            dialect,
            *node,
            visits,
            table.lines@,
            index as nat,
        ));
    }
}

/// Collects the units of a node and its parts.
pub fn collect_walk(
    dialect: Dialect,
    node: &SyntaxNode,
    context: &Context,
    table: &LineTable,
    output: &mut Vec<Unit>,
)
    requires
        table.well_formed(),
    ensures
        unit_views(final(output)@) == unit_views(old(output)@) + walk_units(
            dialect,
            *node,
            context@,
            table.lines@,
        ),
    decreases node, 1nat,
{
    let ghost held = unit_views(output@);
    let before = list_before(dialect, node, context);
    collect_visits(dialect, node, &before, table, output);
    push_own_units(dialect, node, context, table, output);
    let after = list_after(dialect, node, context, table);
    collect_visits(dialect, node, &after, table, output);
    assert(unit_views(output@) =~= held + walk_units(dialect, *node, context@, table.lines@));
}

}
