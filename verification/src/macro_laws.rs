//! What macros hide.
use vstd::prelude::*;
use crate::model::MacroOpacity;
use crate::rust::{counts_macros, macro_sites, part_macro_sites, site_tokens};
use crate::spans::TokenRange;
use crate::sums::{total, total_push};
use crate::syntax::{written, SyntaxNode};
use crate::unit_laws::lemma_tokens;
use crate::units::ByteRange;

verus! {

/// How many tokens lie wholly in a range.
pub open spec fn tokens_inside(tokens: Seq<TokenRange>, range: ByteRange) -> nat {
    total(
        tokens.map_values(
            |token: TokenRange|
                if token.start >= range.start && token.end <= range.end {
                    1nat
                } else {
                    0nat
                },
        ),
    )
}

/// Whether a node invokes a macro, other than one that defines another.
pub open spec fn invokes(node: SyntaxNode) -> bool {
    node.named("Macro"@) && written(node.names@) != "macro_rules"@ && written(node.names@)
        != "macro_rules_attribute"@
}

/// Whether a node defines a macro.
pub open spec fn defines(node: SyntaxNode) -> bool {
    node.named("ItemMacro"@) && node.flag
}

proof fn lemma_parts(node: SyntaxNode, definitions: bool, count: nat)
    requires
        count <= node.children@.len(),
        !defines(node),
    ensures
        part_macro_sites(node, definitions, count).len() == total(
            node.children@.take(count as int).map_values(
                |part: SyntaxNode| macro_sites(part, definitions).len(),
            ),
        ),
    decreases count,
{
    let sites = |part: SyntaxNode| macro_sites(part, definitions).len();
    if count == 0 {
        assert(node.children@.take(0).map_values(sites) =~= Seq::<nat>::empty());
    } else {
        lemma_parts(node, definitions, (count - 1) as nat);
        let fewer = node.children@.take(count - 1).map_values(sites);
        assert(node.children@.take(count as int).map_values(sites) =~= fewer.push(
            sites(node.children@[count - 1]),
        ));
        total_push(fewer, sites(node.children@[count - 1]));
    }
}

/// Code has the macro invocations, and the macro definitions, of its parts and the one
/// that it is itself, if it is one.
pub proof fn macros_are_those_of_the_parts(node: SyntaxNode)
    requires
        !defines(node),
    ensures
        macro_sites(node, false).len() == total(
            node.children@.map_values(|part: SyntaxNode| macro_sites(part, false).len()),
        ) + if invokes(node) {
            1nat
        } else {
            0nat
        },
        macro_sites(node, true).len() == total(
            node.children@.map_values(|part: SyntaxNode| macro_sites(part, true).len()),
        ),
        invokes(node) ==> macro_sites(node, false)[0] == (ByteRange {
            start: node.start,
            end: node.end,
        }),
{
    lemma_parts(node, false, node.children@.len());
    lemma_parts(node, true, node.children@.len());
    assert(node.children@.take(node.children@.len() as int) =~= node.children@);
}

proof fn lemma_no_parts(node: SyntaxNode, definitions: bool, count: nat)
    requires
        count <= node.children@.len(),
        defines(node),
        forall|index: int|
            0 <= index < node.children@.len() ==> !(#[trigger] node.children@[index]).named(
                "Attribute"@,
            ),
    ensures
        part_macro_sites(node, definitions, count).len() == 0,
    decreases count,
{
    if count > 0 {
        lemma_no_parts(node, definitions, (count - 1) as nat);
        assert(!node.children@[count - 1].named("Attribute"@));
    }
}

/// The definition of a macro is one definition, and what it holds is no code.
pub proof fn definitions_hold_no_code(node: SyntaxNode)
    requires
        defines(node),
        forall|index: int|
            0 <= index < node.children@.len() ==> !(#[trigger] node.children@[index]).named(
                "Attribute"@,
            ),
    ensures
        macro_sites(node, true) == seq![ByteRange { start: node.start, end: node.end }],
        macro_sites(node, false).len() == 0,
{
    reveal_strlit("ItemMacro");
    reveal_strlit("Macro");
    assert("ItemMacro"@.len() == 9 && "Macro"@.len() == 5);
    lemma_no_parts(node, true, node.children@.len());
    lemma_no_parts(node, false, node.children@.len());
    assert(macro_sites(node, true) =~= seq![ByteRange { start: node.start, end: node.end }]);
}

proof fn lemma_site_tokens(tokens: Seq<TokenRange>, sites: Seq<ByteRange>, count: nat)
    requires
        count <= sites.len(),
    ensures
        site_tokens(tokens, sites, count) == total(
            sites.take(count as int).map_values(|site: ByteRange| tokens_inside(tokens, site)),
        ),
    decreases count,
{
    let inside = |site: ByteRange| tokens_inside(tokens, site);
    if count == 0 {
        assert(sites.take(0).map_values(inside) =~= Seq::<nat>::empty());
    } else {
        lemma_site_tokens(tokens, sites, (count - 1) as nat);
        let site = sites[count - 1];
        let fewer = sites.take(count - 1).map_values(inside);
        assert(sites.take(count as int).map_values(inside) =~= fewer.push(inside(site)));
        total_push(fewer, inside(site));
        lemma_tokens(tokens, site.start as int, site.end as int, tokens.len());
        assert(tokens.take(tokens.len() as int) =~= tokens);
        let one = |token: TokenRange|
            if token.start >= site.start && token.end <= site.end {
                1nat
            } else {
                0nat
            };
        let other = |token: TokenRange|
            if token.start >= site.start as int && token.end <= site.end as int {
                1nat
            } else {
                0nat
            };
        assert(tokens.map_values(one) =~= tokens.map_values(other));
    }
}

/// The macros of a file hide the tokens that lie in their sites.
pub proof fn macros_hide_their_tokens(
    opacity: MacroOpacity,
    tree: SyntaxNode,
    tokens: Seq<TokenRange>,
)
    requires
        counts_macros(opacity, tree, tokens),
    ensures
        opacity.invocations == macro_sites(tree, false).len(),
        opacity.definitions == macro_sites(tree, true).len(),
        ({
            let hidden = total(
                macro_sites(tree, false).map_values(
                    |site: ByteRange| tokens_inside(tokens, site),
                ),
            );
            hidden <= usize::MAX ==> opacity.source_tokens == hidden
        }),
        ({
            let hidden = total(
                macro_sites(tree, true).map_values(
                    |site: ByteRange| tokens_inside(tokens, site),
                ),
            );
            hidden <= usize::MAX ==> opacity.definition_tokens == hidden
        }),
{
    let invocations = macro_sites(tree, false);
    let definitions = macro_sites(tree, true);
    lemma_site_tokens(tokens, invocations, invocations.len());
    lemma_site_tokens(tokens, definitions, definitions.len());
    assert(invocations.take(invocations.len() as int) =~= invocations);
    assert(definitions.take(definitions.len() as int) =~= definitions);
}

}
