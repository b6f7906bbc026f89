//! What the names in a body may mean.
//!
//! Name resolution remains intentionally conservative: a name that anything
//! else in sight binds is not taken for a local function.
use vstd::prelude::*;
use crate::evidence::CallResolutionReason;
use crate::text::{holds_text, texts};

verus! {

pub(crate) fn push_text(list: &mut Vec<String>, text: String)
    ensures
        texts(final(list)@) == texts(old(list)@).push(text@),
        final(list)@.len() == old(list)@.len() + 1,
{
    let ghost held = texts(list@);
    list.push(text);
    assert(texts(list@) =~= held.push(text@));
}

/// What the names in a body may mean.
pub struct KnownNames {
    pub parameters: Seq<Seq<char>>,
    pub aliases: Seq<Seq<char>>,
    pub assignments: Seq<Seq<char>>,
    pub import_aliases: Seq<Seq<char>>,
    pub import_names: Seq<Seq<char>>,
}

/// The names known in a body.
#[derive(Debug)]
pub struct NameTable {
    pub parameters: Vec<String>,
    pub aliases: Vec<String>,
    pub assignments: Vec<String>,
}

/// The names imported in a module.
#[derive(Debug)]
pub struct ImportTable {
    pub aliases: Vec<String>,
    pub names: Vec<String>,
}

/// What the tables of a body and its module say.
pub open spec fn known_names(own: NameTable, imported: ImportTable) -> KnownNames {
    KnownNames {
        parameters: texts(own.parameters@),
        aliases: texts(own.aliases@),
        assignments: texts(own.assignments@),
        import_aliases: texts(imported.aliases@),
        import_names: texts(imported.names@),
    }
}

/// Why a call of a bare name is what it is.
pub open spec fn direct_reason(known: KnownNames, name: Seq<char>) -> CallResolutionReason {
    if known.parameters.contains(name) {
        CallResolutionReason::Parameter
    } else if known.aliases.contains(name) {
        CallResolutionReason::Alias
    } else if known.assignments.contains(name) {
        CallResolutionReason::Assignment
    } else if known.import_aliases.contains(name) {
        CallResolutionReason::Alias
    } else if known.import_names.contains(name) {
        CallResolutionReason::Import
    } else {
        CallResolutionReason::DirectLocal
    }
}

pub(crate) fn find_reason(own: &NameTable, imported: &ImportTable, name: &str) -> (reason: CallResolutionReason)
    ensures
        reason == direct_reason(known_names(*own, *imported), name@),
{
    if holds_text(&own.parameters, name) {
        CallResolutionReason::Parameter
    } else if holds_text(&own.aliases, name) {
        CallResolutionReason::Alias
    } else if holds_text(&own.assignments, name) {
        CallResolutionReason::Assignment
    } else if holds_text(&imported.aliases, name) {
        CallResolutionReason::Alias
    } else if holds_text(&imported.names, name) {
        CallResolutionReason::Import
    } else {
        CallResolutionReason::DirectLocal
    }
}

}
