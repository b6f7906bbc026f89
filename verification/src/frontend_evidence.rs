//! Calls and statements of source, attached to the units that hold them.
use vstd::prelude::*;
use crate::evidence::{
    CallResolutionReason, FrontendCall, FrontendEvidence, FrontendStatement, LocalCallable,
};
use crate::model::{FunctionKind, FunctionReport, Location};
use crate::spans::{token_texts, token_texts_in};
use crate::sums::clipped;
use crate::text::{same_text, texts};
use crate::units::{located, ByteRange, SourceMap, SourceMapView};

verus! {

/// A function as a frontend refers to it.
pub open spec fn local_of(function: FunctionReport) -> LocalCallable {
    LocalCallable {
        name: function.name,
        kind: function.kind,
        category: function.category,
        location: function.location,
    }
}

/// Whether a function has a name, a kind and, where one is asked for, a place.
pub open spec fn fits(
    function: FunctionReport,
    name: Seq<char>,
    kind: FunctionKind,
    location: Option<Location>,
) -> bool {
    &&& function.name@ == name
    &&& function.kind == kind
    &&& match location {
        Some(place) => function.location == place,
        None => true,
    }
}

/// Those of the first `count` functions that fit.
pub open spec fn fitting(
    functions: Seq<FunctionReport>,
    name: Seq<char>,
    kind: FunctionKind,
    location: Option<Location>,
    count: nat,
) -> Seq<LocalCallable>
    decreases count,
{
    if count == 0 {
        Seq::empty()
    } else {
        let earlier = fitting(functions, name, kind, location, (count - 1) as nat);
        if fits(functions[count - 1], name, kind, location) {
            earlier.push(local_of(functions[count - 1]))
        } else {
            earlier
        }
    }
}

/// The unit that a body belongs to: the one with its name, kind and place, or
/// else the only one with its name and kind.
pub open spec fn owner_of(
    functions: Seq<FunctionReport>,
    name: Seq<char>,
    kind: FunctionKind,
    location: Location,
) -> Option<LocalCallable> {
    let exact = fitting(functions, name, kind, Some(location), functions.len());
    let alike = fitting(functions, name, kind, None, functions.len());
    if exact.len() > 0 {
        Some(exact[0])
    } else if alike.len() == 1 {
        Some(alike[0])
    } else {
        None
    }
}

fn list_fitting(
    functions: &Vec<FunctionReport>,
    name: &str,
    kind: FunctionKind,
    location: Option<Location>,
) -> (list: Vec<LocalCallable>)
    ensures
        list@ == fitting(functions@, name@, kind, location, functions@.len()),
{
    let mut list: Vec<LocalCallable> = Vec::new();
    let mut index: usize = 0;
    while index < functions.len()
        invariant
            index <= functions@.len(),
            list@ == fitting(functions@, name@, kind, location, index as nat),
        decreases functions@.len() - index,
    {
        let function = &functions[index];
        let placed: bool = match location {
            Some(place) => function.location == place,
            None => true,
        };
        if function.kind == kind && placed && same_text(function.name.as_str(), name) {
            list.push(
                LocalCallable {
                    name: function.name.clone(),
                    kind: function.kind,
                    category: function.category,
                    location: function.location,
                },
            );
        }
        index += 1;
    }
    list
}

pub fn find_unit(
    functions: &Vec<FunctionReport>,
    name: &str,
    kind: FunctionKind,
    location: Location,
) -> (owner: Option<LocalCallable>)
    ensures
        owner == owner_of(functions@, name@, kind, location),
{
    let exact = list_fitting(functions, name, kind, Some(location));
    if exact.len() > 0 {
        return Some(exact[0].clone());
    }
    let alike = list_fitting(functions, name, kind, None);
    if alike.len() == 1 {
        return Some(alike[0].clone());
    }
    None
}

/// A call before it is placed.
#[derive(Debug)]
pub struct CallSite {
    pub name: String,
    pub reason: CallResolutionReason,
    pub range: ByteRange,
}

/// The plain content of a call before it is placed.
pub struct CallSiteView {
    pub name: Seq<char>,
    pub reason: CallResolutionReason,
    pub range: ByteRange,
}

impl View for CallSite {
    type V = CallSiteView;

    open spec fn view(&self) -> CallSiteView {
        CallSiteView { name: self.name@, reason: self.reason, range: self.range }
    }
}

/// The plain contents of calls before they are placed.
pub open spec fn site_views(sites: Seq<CallSite>) -> Seq<CallSiteView> {
    sites.map_values(|site: CallSite| site@)
}

pub fn push_site(sites: &mut Vec<CallSite>, name: String, reason: CallResolutionReason, range: ByteRange)
    ensures
        site_views(final(sites)@) == site_views(old(sites)@).push(
            CallSiteView { name: name@, reason, range },
        ),
{
    let ghost held = site_views(sites@);
    let site = CallSite { name, reason, range };
    let ghost added = site@;
    sites.push(site);
    assert(site_views(sites@) =~= held.push(added));
}

/// A statement before it is placed, with the number of its list among those of
/// its body.
#[derive(Clone, Copy, Debug, PartialEq, Eq, Structural)]
pub struct StatementSite {
    pub sequence: usize,
    pub ordinal: usize,
    pub range: ByteRange,
    pub scored_signals: usize,
}

/// The plain content of a call that is attached to its unit.
pub struct FrontendCallView {
    pub caller: LocalCallable,
    pub name: Seq<char>,
    pub reason: CallResolutionReason,
    pub location: Location,
}

impl View for FrontendCall {
    type V = FrontendCallView;

    open spec fn view(&self) -> FrontendCallView {
        FrontendCallView {
            caller: self.caller,
            name: self.name@,
            reason: self.reason,
            location: self.location,
        }
    }
}

/// The plain content of a statement that is attached to its unit.
pub struct FrontendStatementView {
    pub caller: LocalCallable,
    pub sequence: usize,
    pub ordinal: usize,
    pub location: Location,
    pub tokens: Seq<Seq<char>>,
    pub scored_signals: usize,
}

impl View for FrontendStatement {
    type V = FrontendStatementView;

    open spec fn view(&self) -> FrontendStatementView {
        FrontendStatementView {
            caller: self.caller,
            sequence: self.sequence,
            ordinal: self.ordinal,
            location: self.location,
            tokens: texts(self.tokens@),
            scored_signals: self.scored_signals,
        }
    }
}

/// The plain contents of attached calls.
pub open spec fn call_views(calls: Seq<FrontendCall>) -> Seq<FrontendCallView> {
    calls.map_values(|call: FrontendCall| call@)
}

/// The plain contents of attached statements.
pub open spec fn statement_views(statements: Seq<FrontendStatement>) -> Seq<
    FrontendStatementView,
> {
    statements.map_values(|statement: FrontendStatement| statement@)
}

/// Calls attached to a unit.
pub open spec fn attached_calls(
    map: SourceMapView,
    owner: LocalCallable,
    sites: Seq<CallSiteView>,
) -> Seq<FrontendCallView> {
    sites.map_values(
        |site: CallSiteView|
            FrontendCallView {
                caller: owner,
                name: site.name,
                reason: site.reason,
                location: located(map, site.range),
            },
    )
}

/// Statements attached to a unit. Their lists are numbered from `first` on.
pub open spec fn attached_statements(
    map: SourceMapView,
    owner: LocalCallable,
    sites: Seq<StatementSite>,
    first: usize,
) -> Seq<FrontendStatementView> {
    sites.map_values(
        |site: StatementSite|
            FrontendStatementView {
                caller: owner,
                sequence: clipped(first as nat + site.sequence as nat),
                ordinal: site.ordinal,
                location: located(map, site.range),
                tokens: token_texts(
                    map.source,
                    map.tokens,
                    site.range.start as int,
                    site.range.end as int,
                    map.tokens.len(),
                ),
                scored_signals: site.scored_signals,
            },
    )
}

/// A body with the unit that it should belong to, and what happens in it.
pub struct HolderView {
    pub name: Seq<char>,
    pub kind: FunctionKind,
    pub range: ByteRange,
    pub statements: Seq<StatementSite>,
    /// How many lists of statements the body has.
    pub lists: usize,
    pub calls: Seq<CallSiteView>,
}

/// The calls of the first `count` holders that have a unit.
pub open spec fn held_calls(
    map: SourceMapView,
    functions: Seq<FunctionReport>,
    holders: Seq<HolderView>,
    count: nat,
) -> Seq<FrontendCallView>
    decreases count,
{
    if count == 0 {
        Seq::empty()
    } else {
        let earlier = held_calls(map, functions, holders, (count - 1) as nat);
        let holder = holders[count - 1];
        match owner_of(functions, holder.name, holder.kind, located(map, holder.range)) {
            Some(owner) => earlier + attached_calls(map, owner, holder.calls),
            None => earlier,
        }
    }
}

/// How many lists of statements the first `count` holders have that have a unit.
pub open spec fn held_lists(
    map: SourceMapView,
    functions: Seq<FunctionReport>,
    holders: Seq<HolderView>,
    count: nat,
) -> nat
    decreases count,
{
    if count == 0 {
        0
    } else {
        let earlier = held_lists(map, functions, holders, (count - 1) as nat);
        let holder = holders[count - 1];
        match owner_of(functions, holder.name, holder.kind, located(map, holder.range)) {
            Some(_) => earlier + holder.lists as nat,
            None => earlier,
        }
    }
}

/// The statements of the first `count` holders that have a unit. Lists are
/// numbered as they are met.
pub open spec fn held_statements(
    map: SourceMapView,
    functions: Seq<FunctionReport>,
    holders: Seq<HolderView>,
    count: nat,
) -> Seq<FrontendStatementView>
    decreases count,
{
    if count == 0 {
        Seq::empty()
    } else {
        let earlier = held_statements(map, functions, holders, (count - 1) as nat);
        let holder = holders[count - 1];
        match owner_of(functions, holder.name, holder.kind, located(map, holder.range)) {
            Some(owner) => earlier + attached_statements(
                map,
                owner,
                holder.statements,
                clipped(held_lists(map, functions, holders, (count - 1) as nat)),
            ),
            None => earlier,
        }
    }
}

/// Whether evidence is that of holders.
pub open spec fn holds_evidence(
    evidence: FrontendEvidence,
    map: SourceMapView,
    functions: Seq<FunctionReport>,
    holders: Seq<HolderView>,
) -> bool {
    &&& call_views(evidence.calls@) == held_calls(map, functions, holders, holders.len())
    &&& statement_views(evidence.statements@) == held_statements(
        map,
        functions,
        holders,
        holders.len(),
    )
}

/// A body with the unit that it should belong to, and what happens in it.
#[derive(Debug)]
pub struct Holder {
    pub name: String,
    pub kind: FunctionKind,
    pub range: ByteRange,
    pub statements: Vec<StatementSite>,
    /// How many lists of statements the body has.
    pub lists: usize,
    pub calls: Vec<CallSite>,
}

impl View for Holder {
    type V = HolderView;

    open spec fn view(&self) -> HolderView {
        HolderView {
            name: self.name@,
            kind: self.kind,
            range: self.range,
            statements: self.statements@,
            lists: self.lists,
            calls: site_views(self.calls@),
        }
    }
}

/// The plain contents of holders.
pub open spec fn holder_views(holders: Seq<Holder>) -> Seq<HolderView> {
    holders.map_values(|holder: Holder| holder@)
}

pub fn push_holder(holders: &mut Vec<Holder>, holder: Holder)
    ensures
        holder_views(final(holders)@) == holder_views(old(holders)@).push(holder@),
{
    let ghost held = holder_views(holders@);
    holders.push(holder);
    assert(holder_views(holders@) =~= held.push(holder@));
}

fn attach_calls(
    map: &SourceMap,
    owner: &LocalCallable,
    sites: &Vec<CallSite>,
    calls: &mut Vec<FrontendCall>,
)
    requires
        map.well_formed(),
    ensures
        call_views(final(calls)@) == call_views(old(calls)@) + attached_calls(
            map@,
            *owner,
            site_views(sites@),
        ),
{
    let ghost held = call_views(calls@);
    let ghost whole = attached_calls(map@, *owner, site_views(sites@));
    let mut index: usize = 0;
    while index < sites.len()
        invariant
            index <= sites@.len(),
            map.well_formed(),
            whole == attached_calls(map@, *owner, site_views(sites@)),
            call_views(calls@) =~= held + whole.take(index as int),
        decreases sites@.len() - index,
    {
        let site = &sites[index];
        let ghost before = call_views(calls@);
        let call = FrontendCall {
            caller: owner.clone(),
            name: site.name.clone(),
            reason: site.reason,
            location: map.locate(site.range),
        };
        assert(call@ == whole[index as int]);
        let ghost added = call@;
        calls.push(call);
        assert(call_views(calls@) =~= before.push(added));
        index += 1;
    }
    assert(call_views(calls@) =~= held + whole);
}

fn attach_statements(
    map: &SourceMap,
    owner: &LocalCallable,
    sites: &Vec<StatementSite>,
    first: usize,
    statements: &mut Vec<FrontendStatement>,
)
    requires
        map.well_formed(),
    ensures
        statement_views(final(statements)@) == statement_views(old(statements)@)
            + attached_statements(map@, *owner, sites@, first),
{
    let ghost held = statement_views(statements@);
    let ghost whole = attached_statements(map@, *owner, sites@, first);
    let mut index: usize = 0;
    while index < sites.len()
        invariant
            index <= sites@.len(),
            map.well_formed(),
            whole == attached_statements(map@, *owner, sites@, first),
            statement_views(statements@) =~= held + whole.take(index as int),
        decreases sites@.len() - index,
    {
        let site = sites[index];
        let ghost before = statement_views(statements@);
        let statement = FrontendStatement {
            caller: owner.clone(),
            sequence: first.saturating_add(site.sequence),
            ordinal: site.ordinal,
            location: map.locate(site.range),
            tokens: token_texts_in(map.source, &map.tokens, site.range.start, site.range.end),
            scored_signals: site.scored_signals,
        };
        assert(statement@ == whole[index as int]);
        let ghost added = statement@;
        statements.push(statement);
        assert(statement_views(statements@) =~= before.push(added));
        index += 1;
    }
    assert(statement_views(statements@) =~= held + whole);
}

/// The evidence of holders that have a unit.
pub fn attach_evidence(
    map: &SourceMap,
    functions: &Vec<FunctionReport>,
    holders: &Vec<Holder>,
) -> (evidence: FrontendEvidence)
    requires
        map.well_formed(),
    ensures
        holds_evidence(evidence, map@, functions@, holder_views(holders@)),
{
    let ghost views = holder_views(holders@);
    let mut calls: Vec<FrontendCall> = Vec::new();
    let mut statements: Vec<FrontendStatement> = Vec::new();
    let mut first: usize = 0;
    let mut index: usize = 0;
    assert(call_views(calls@) =~= Seq::<FrontendCallView>::empty());
    assert(statement_views(statements@) =~= Seq::<FrontendStatementView>::empty());
    while index < holders.len()
        invariant
            index <= holders@.len(),
            first == clipped(held_lists(map@, functions@, views, index as nat)),
            map.well_formed(),
            views == holder_views(holders@),
            call_views(calls@) == held_calls(map@, functions@, views, index as nat),
            statement_views(statements@) == held_statements(
                map@,
                functions@,
                views,
                index as nat,
            ),
        decreases holders@.len() - index,
    {
        let holder = &holders[index];
        assert(views[index as int] == holder@);
        if let Some(owner) = find_unit(
            functions,
            holder.name.as_str(),
            holder.kind,
            map.locate(holder.range),
        ) {
            attach_statements(map, &owner, &holder.statements, first, &mut statements);
            first = first.saturating_add(holder.lists);
            attach_calls(map, &owner, &holder.calls, &mut calls);
        }
        index += 1;
    }
    FrontendEvidence { calls, statements }
}

/// What a walk of bodies meets: a body with its statements, or a call, each with
/// the unit that it belongs to.
#[derive(Debug)]
pub enum Happening {
    Body { owner: LocalCallable, statements: Vec<StatementSite> },
    Call { owner: LocalCallable, site: CallSite },
}

/// The plain content of what a walk meets.
pub enum HappeningView {
    Body { owner: LocalCallable, statements: Seq<StatementSite> },
    Call { owner: LocalCallable, site: CallSiteView },
}

impl View for Happening {
    type V = HappeningView;

    open spec fn view(&self) -> HappeningView {
        match *self {
            Happening::Body { owner, statements } => HappeningView::Body {
                owner,
                statements: statements@,
            },
            Happening::Call { owner, site } => HappeningView::Call { owner, site: site@ },
        }
    }
}

/// The plain contents of what a walk meets.
pub open spec fn happening_views(list: Seq<Happening>) -> Seq<HappeningView> {
    list.map_values(|happening: Happening| happening@)
}

pub fn push_happening(list: &mut Vec<Happening>, happening: Happening)
    ensures
        happening_views(final(list)@) == happening_views(old(list)@).push(happening@),
{
    let ghost before = happening_views(list@);
    list.push(happening);
    assert(happening_views(list@) =~= before.push(happening@));
}

/// The calls among the first `count` happenings, in the order of the walk.
pub open spec fn met_calls(map: SourceMapView, list: Seq<HappeningView>, count: nat) -> Seq<
    FrontendCallView,
>
    decreases count,
{
    if count == 0 {
        Seq::empty()
    } else {
        let earlier = met_calls(map, list, (count - 1) as nat);
        match list[count - 1] {
            HappeningView::Body { .. } => earlier,
            HappeningView::Call { owner, site } => earlier.push(
                FrontendCallView {
                    caller: owner,
                    name: site.name,
                    reason: site.reason,
                    location: located(map, site.range),
                },
            ),
        }
    }
}

/// How many bodies are among the first `count` happenings.
pub open spec fn body_count(list: Seq<HappeningView>, count: nat) -> nat
    decreases count,
{
    if count == 0 {
        0
    } else {
        body_count(list, (count - 1) as nat) + match list[count - 1] {
            HappeningView::Body { .. } => 1nat,
            HappeningView::Call { .. } => 0nat,
        }
    }
}

/// The statements of the bodies among the first `count` happenings, each body
/// one list, numbered as it is met.
pub open spec fn met_statements(map: SourceMapView, list: Seq<HappeningView>, count: nat) -> Seq<
    FrontendStatementView,
>
    decreases count,
{
    if count == 0 {
        Seq::empty()
    } else {
        let earlier = met_statements(map, list, (count - 1) as nat);
        match list[count - 1] {
            HappeningView::Body { owner, statements } => earlier + attached_statements(
                map,
                owner,
                statements,
                body_count(list, (count - 1) as nat) as usize,
            ),
            HappeningView::Call { .. } => earlier,
        }
    }
}

/// Whether evidence is what a walk met.
pub open spec fn met_evidence(
    evidence: FrontendEvidence,
    map: SourceMapView,
    list: Seq<HappeningView>,
) -> bool {
    &&& call_views(evidence.calls@) == met_calls(map, list, list.len())
    &&& statement_views(evidence.statements@) == met_statements(map, list, list.len())
}

/// The evidence that a walk met.
pub fn attach_met(map: &SourceMap, list: &Vec<Happening>) -> (evidence: FrontendEvidence)
    requires
        map.well_formed(),
    ensures
        met_evidence(evidence, map@, happening_views(list@)),
{
    let ghost views = happening_views(list@);
    let mut calls: Vec<FrontendCall> = Vec::new();
    let mut statements: Vec<FrontendStatement> = Vec::new();
    let mut bodies: usize = 0;
    let mut index: usize = 0;
    assert(call_views(calls@) =~= Seq::<FrontendCallView>::empty());
    assert(statement_views(statements@) =~= Seq::<FrontendStatementView>::empty());
    while index < list.len()
        invariant
            index <= list@.len(),
            map.well_formed(),
            views == happening_views(list@),
            bodies <= index,
            bodies == body_count(views, index as nat),
            call_views(calls@) == met_calls(map@, views, index as nat),
            statement_views(statements@) == met_statements(map@, views, index as nat),
        decreases list@.len() - index,
    {
        assert(views[index as int] == list@[index as int]@);
        match &list[index] {
            Happening::Body { owner, statements: sites } => {
                attach_statements(map, owner, sites, bodies, &mut statements);
                bodies += 1;
            },
            Happening::Call { owner, site } => {
                let ghost before = call_views(calls@);
                let call = FrontendCall {
                    caller: owner.clone(),
                    name: site.name.clone(),
                    reason: site.reason,
                    location: map.locate(site.range),
                };
                let ghost added = call@;
                calls.push(call);
                assert(call_views(calls@) =~= before.push(added));
            },
        }
        index += 1;
    }
    FrontendEvidence { calls, statements }
}

}
