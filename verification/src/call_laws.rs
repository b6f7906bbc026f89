//! What is known of a call from how it is written.
use vstd::prelude::*;
use crate::evidence::CallResolutionReason;
use crate::frontend_evidence::CallSiteView;
use crate::javascript_evidence;
use crate::known_names::{direct_reason, KnownNames};
use crate::python_evidence;
use crate::python_units::node_name;
use crate::rust_evidence;
use crate::rust_evidence::{calls_in, part_calls};
use crate::sums::{total, total_push};
use crate::syntax::{named_count, SyntaxNode};
use crate::unit_laws::{count_kind, lemma_one_more};

verus! {

/// A bare name is taken for a function of its file just where nothing in sight binds
/// it. Else what binds it nearest tells why it is not: a parameter, a local alias, an
/// assignment, and then what is imported.
pub proof fn bound_names_are_no_local_functions(known: KnownNames, name: Seq<char>)
    ensures
        ({
            let reason = direct_reason(known, name);
            let local = known.parameters.contains(name) || known.aliases.contains(name)
                || known.assignments.contains(name);
            let imported = known.import_aliases.contains(name) || known.import_names.contains(name);
            &&& reason == CallResolutionReason::DirectLocal <==> !local && !imported
            &&& reason == CallResolutionReason::Parameter <==> known.parameters.contains(name)
            &&& reason == CallResolutionReason::Assignment <==> known.assignments.contains(name)
                && !known.parameters.contains(name) && !known.aliases.contains(name)
            &&& reason == CallResolutionReason::Import <==> !local && known.import_names.contains(
                name,
            ) && !known.import_aliases.contains(name)
            &&& !known.parameters.contains(name) && known.aliases.contains(name) ==> reason
                == CallResolutionReason::Alias
            &&& !local && known.import_aliases.contains(name) ==> reason
                == CallResolutionReason::Alias
        }),
{
}

/// Whether a node is met as one call of a name, as far as it can be resolved.
pub open spec fn one_call(
    calls: Seq<CallSiteView>,
    node: SyntaxNode,
    name: Seq<char>,
    reason: CallResolutionReason,
) -> bool {
    &&& calls.len() == 1
    &&& calls[0].name == name
    &&& calls[0].reason == reason
    &&& calls[0].range.start == node.start
    &&& calls[0].range.end == node.end
}

pub(crate) proof fn lemma_named_count(parts: Seq<SyntaxNode>, kind: Seq<char>, count: nat)
    requires
        count <= parts.len(),
    ensures
        named_count(parts, kind, count) == count_kind(parts.take(count as int), kind),
    decreases count,
{
    if count == 0 {
        let one = |node: SyntaxNode|
            if node.named(kind) {
                1nat
            } else {
                0nat
            };
        assert(parts.take(0).map_values(one) =~= Seq::<nat>::empty());
    } else {
        lemma_named_count(parts, kind, (count - 1) as nat);
        lemma_one_more(parts, kind, count);
    }
}

/// A call in Rust source is met under the last name of the path that is called: a
/// single name is resolved by what binds it, a longer path is qualified, and a callee
/// that is no path is dynamic. A method call is met under the name of the method.
/// Nothing else is a call.
pub proof fn rust_calls_are_met_as_written(node: SyntaxNode, known: KnownNames)
    ensures
        node.named("ExprMethodCall"@) ==> one_call(
            rust_evidence::own_call(node, known),
            node,
            node.text@,
            CallResolutionReason::Method,
        ),
        !node.named("ExprMethodCall"@) && !node.named("ExprCall"@) ==> rust_evidence::own_call(
            node,
            known,
        ).len() == 0,
        ({
            let place = count_kind(node.children@, "Attribute"@) as int;
            node.named("ExprCall"@) && place < node.children@.len() ==> {
                let callee = node.children@[place];
                let names = callee.names@;
                let path = callee.named("ExprPath"@);
                &&& path && !callee.flag && names.len() == 1 ==> one_call(
                    rust_evidence::own_call(node, known),
                    node,
                    names[0]@,
                    direct_reason(known, names[0]@),
                )
                &&& path && names.len() > 1 ==> one_call(
                    rust_evidence::own_call(node, known),
                    node,
                    names[names.len() - 1]@,
                    CallResolutionReason::Qualified,
                )
                &&& path && callee.flag && names.len() > 0 ==> one_call(
                    rust_evidence::own_call(node, known),
                    node,
                    names[names.len() - 1]@,
                    CallResolutionReason::Qualified,
                )
                &&& !path ==> one_call(
                    rust_evidence::own_call(node, known),
                    node,
                    "<dynamic>"@,
                    CallResolutionReason::Dynamic,
                )
            }
        }),
{
    reveal_strlit("ExprCall");
    reveal_strlit("ExprMethodCall");
    assert("ExprCall"@.len() == 8 && "ExprMethodCall"@.len() == 14);
    lemma_named_count(node.children@, "Attribute"@, node.children@.len());
    assert(node.children@.take(node.children@.len() as int) =~= node.children@);
}

proof fn lemma_part_calls(node: SyntaxNode, known: KnownNames, count: nat)
    requires
        count <= node.children@.len(),
    ensures
        part_calls(node, known, count).len() == total(
            node.children@.take(count as int).map_values(
                |part: SyntaxNode| calls_in(part, known).len(),
            ),
        ),
    decreases count,
{
    let calls = |part: SyntaxNode| calls_in(part, known).len();
    if count == 0 {
        assert(node.children@.take(0).map_values(calls) =~= Seq::<nat>::empty());
    } else {
        lemma_part_calls(node, known, (count - 1) as nat);
        let fewer = node.children@.take(count - 1).map_values(calls);
        assert(node.children@.take(count as int).map_values(calls) =~= fewer.push(
            calls(node.children@[count - 1]),
        ));
        total_push(fewer, calls(node.children@[count - 1]));
    }
}

/// Rust code has the calls of its parts and the one that it is itself, if it is one;
/// closures and items keep theirs.
pub proof fn rust_calls_are_those_of_the_parts(node: SyntaxNode, known: KnownNames)
    ensures
        node.named("ExprClosure"@) || node.named("StmtItem"@) ==> calls_in(node, known).len() == 0,
        !node.named("ExprClosure"@) && !node.named("StmtItem"@) ==> calls_in(node, known).len()
            == rust_evidence::own_call(node, known).len() + total(
            node.children@.map_values(|part: SyntaxNode| calls_in(part, known).len()),
        ),
{
    lemma_part_calls(node, known, node.children@.len());
    assert(node.children@.take(node.children@.len() as int) =~= node.children@);
}

/// A call in Python source is met under the name that is called: a bare name is
/// resolved by what binds it, an attribute is a method, and anything else is dynamic.
pub proof fn python_calls_are_met_as_written(node: SyntaxNode, known: KnownNames)
    ensures
        !node.named("ExprCall"@) ==> python_evidence::own_calls(node, known).len() == 0,
        node.named("ExprCall"@) && node.children@.len() > 0 ==> {
            let callee = node.children@[0];
            &&& callee.named("ExprName"@) ==> one_call(
                python_evidence::own_calls(node, known),
                node,
                callee.text@,
                direct_reason(known, callee.text@),
            )
            &&& callee.named("ExprAttribute"@) ==> one_call(
                python_evidence::own_calls(node, known),
                node,
                node_name(callee),
                CallResolutionReason::Method,
            )
            &&& !callee.named("ExprName"@) && !callee.named("ExprAttribute"@) ==> one_call(
                python_evidence::own_calls(node, known),
                node,
                "<dynamic>"@,
                CallResolutionReason::Dynamic,
            )
        },
{
    reveal_strlit("ExprName");
    reveal_strlit("ExprAttribute");
    assert("ExprName"@.len() == 8 && "ExprAttribute"@.len() == 13);
}

/// A call in JavaScript or TypeScript source is met under the name that is called: a
/// bare name is direct, a member is a method, and anything else is dynamic. What `new`
/// makes is direct.
pub proof fn script_calls_are_met_as_written(node: SyntaxNode)
    ensures
        !node.named("CallExpression"@) && !node.named("NewExpression"@) ==> javascript_evidence::own_call(node).len()
            == 0,
        node.named("CallExpression"@) && node.children@.len() > 0 ==> {
            let callee = node.children@[0];
            let bare = callee.named("IdentifierReference"@);
            let member = callee.named("StaticMemberExpression"@);
            &&& bare ==> one_call(
                javascript_evidence::own_call(node),
                node,
                callee.text@,
                CallResolutionReason::DirectLocal,
            )
            &&& member && callee.children@.len() > 0 ==> one_call(
                javascript_evidence::own_call(node),
                node,
                callee.children@.last().text@,
                CallResolutionReason::Method,
            )
            &&& !bare && !member ==> one_call(
                javascript_evidence::own_call(node),
                node,
                "<dynamic>"@,
                CallResolutionReason::Dynamic,
            )
        },
        node.named("NewExpression"@) && node.children@.len() > 0 ==> {
            let callee = node.children@[0];
            let bare = callee.named("IdentifierReference"@);
            &&& bare ==> one_call(
                javascript_evidence::own_call(node),
                node,
                callee.text@,
                CallResolutionReason::DirectLocal,
            )
            &&& !bare ==> one_call(
                javascript_evidence::own_call(node),
                node,
                "<dynamic>"@,
                CallResolutionReason::DirectLocal,
            )
        },
{
    reveal_strlit("CallExpression");
    reveal_strlit("NewExpression");
    reveal_strlit("IdentifierReference");
    reveal_strlit("StaticMemberExpression");
    assert("CallExpression"@.len() == 14 && "NewExpression"@.len() == 13);
    assert("IdentifierReference"@.len() == 19 && "StaticMemberExpression"@.len() == 22);
}

}
