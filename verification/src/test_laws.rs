//! What marks Rust code as being for tests alone.
use vstd::prelude::*;
use crate::rust_syntax::{
    all_test, any_test, test_attribute, test_attribute_upto, test_only, test_predicate,
};
use crate::syntax::{written, SyntaxNode};

verus! {

/// Whether predicates of conditional compilation are read as the compiler reads them
/// outside tests: `test` does not hold, `all` holds where each of its parts does, and
/// `any` where one of them does. What other predicates say is left open.
pub open spec fn read_outside_tests(holds: spec_fn(SyntaxNode) -> bool) -> bool {
    &&& forall|meta: SyntaxNode|
        meta.named("MetaPath"@) && written(meta.names@) == "test"@ ==> !#[trigger] holds(meta)
    &&& forall|meta: SyntaxNode|
        meta.named("MetaList"@) && written(meta.names@) == "all"@ && #[trigger] holds(meta)
            ==> forall|part: int|
            0 <= part < meta.children@.len() ==> holds(#[trigger] meta.children@[part])
    &&& forall|meta: SyntaxNode|
        meta.named("MetaList"@) && written(meta.names@) == "any"@ && #[trigger] holds(meta)
            ==> exists|part: int|
            0 <= part < meta.children@.len() && holds(#[trigger] meta.children@[part])
}

proof fn lemma_any(meta: SyntaxNode, count: nat)
    requires
        count <= meta.children@.len(),
    ensures
        any_test(meta, count) <==> exists|part: int|
            0 <= part < count && test_predicate(#[trigger] meta.children@[part]),
        all_test(meta, count) <==> forall|part: int|
            0 <= part < count ==> test_predicate(#[trigger] meta.children@[part]),
    decreases count,
{
    if count > 0 {
        lemma_any(meta, (count - 1) as nat);
        if any_test(meta, count) && any_test(meta, (count - 1) as nat) {
            let part = choose|part: int|
                0 <= part < count - 1 && test_predicate(#[trigger] meta.children@[part]);
            assert(test_predicate(meta.children@[part]));
        }
        if test_predicate(meta.children@[count - 1]) {
            assert(any_test(meta, count));
        }
    }
}

/// A predicate that is taken to hold in tests alone does not hold outside tests,
/// whatever else is configured.
pub proof fn test_predicates_fail_outside_tests(
    meta: SyntaxNode,
    holds: spec_fn(SyntaxNode) -> bool,
)
    requires
        read_outside_tests(holds),
        test_predicate(meta),
    ensures
        !holds(meta),
    decreases meta,
{
    lemma_any(meta, meta.children@.len());
    if holds(meta) && !meta.named("MetaPath"@) {
        if written(meta.names@) == "all"@ {
            let part = choose|part: int|
                0 <= part < meta.children@.len() && test_predicate(
                    #[trigger] meta.children@[part],
                );
            test_predicates_fail_outside_tests(meta.children@[part], holds);
        } else {
            let part = choose|part: int|
                0 <= part < meta.children@.len() && holds(#[trigger] meta.children@[part]);
            assert(test_predicate(meta.children@[part]));
            test_predicates_fail_outside_tests(meta.children@[part], holds);
        }
    }
}

/// The plain predicate `test` holds in tests alone; `all` does where one of its parts
/// does, and `any` where it has parts and each of them does.
pub proof fn test_predicates_are_found(meta: SyntaxNode)
    ensures
        meta.named("MetaPath"@) && written(meta.names@) == "test"@ ==> test_predicate(meta),
        forall|part: int|
            meta.named("MetaList"@) && written(meta.names@) == "all"@ && 0 <= part
                < meta.children@.len() && test_predicate(#[trigger] meta.children@[part])
                ==> test_predicate(meta),
        meta.named("MetaList"@) && written(meta.names@) == "any"@ && meta.children@.len() > 0
            && (forall|part: int|
            0 <= part < meta.children@.len() ==> test_predicate(#[trigger] meta.children@[part]))
            ==> test_predicate(meta),
{
    reveal_strlit("MetaPath");
    reveal_strlit("MetaList");
    reveal_strlit("all");
    reveal_strlit("any");
    lemma_any(meta, meta.children@.len());
    assert("all"@[1] == 'l' && "any"@[1] == 'n');
    assert("MetaPath"@[4] == 'P' && "MetaList"@[4] == 'L');
}

proof fn lemma_attributes(parts: Seq<SyntaxNode>, count: nat)
    requires
        count <= parts.len(),
    ensures
        test_attribute_upto(parts, count) <==> exists|place: int|
            0 <= place < count && (#[trigger] parts[place]).named("Attribute"@) && test_attribute(
                parts[place],
            ),
    decreases count,
{
    if count > 0 {
        lemma_attributes(parts, (count - 1) as nat);
        if test_attribute_upto(parts, (count - 1) as nat) {
            let place = choose|place: int|
                0 <= place < count - 1 && (#[trigger] parts[place]).named("Attribute"@)
                    && test_attribute(parts[place]);
            assert(parts[place].named("Attribute"@));
        }
    }
}

/// Whether the content of an attribute marks what is for tests alone: its path ends
/// in `test`, `rstest` or `test_case`, or it is `cfg` with one predicate, which holds
/// in tests alone.
pub open spec fn marks_tests(meta: SyntaxNode) -> bool {
    let names = meta.names@;
    ||| names.len() > 0 && names.last()@ == "test"@
    ||| names.len() > 0 && names.last()@ == "rstest"@
    ||| names.len() > 0 && names.last()@ == "test_case"@
    ||| meta.named("MetaList"@) && written(names) == "cfg"@ && meta.children@.len() == 1
        && test_predicate(meta.children@[0])
}

proof fn lemma_marks(attribute: SyntaxNode)
    ensures
        test_attribute(attribute) <==> attribute.children@.len() > 0 && marks_tests(
            attribute.children@[0],
        ),
{
    reveal_strlit("");
    reveal_strlit("test");
    reveal_strlit("rstest");
    reveal_strlit("test_case");
    assert(""@.len() == 0 && "test"@.len() == 4 && "rstest"@.len() == 6);
    assert("test_case"@.len() == 9);
}

/// What is for tests alone carries an attribute that says so.
pub proof fn test_code_is_marked(node: SyntaxNode)
    ensures
        test_only(node) <==> exists|place: int|
            0 <= place < node.children@.len() && (#[trigger] node.children@[place]).named(
                "Attribute"@,
            ) && node.children@[place].children@.len() > 0 && marks_tests(
                node.children@[place].children@[0],
            ),
{
    let parts = node.children@;
    lemma_attributes(parts, parts.len());
    assert forall|place: int| 0 <= place < parts.len() implies test_attribute(
        #[trigger] parts[place],
    ) == (parts[place].children@.len() > 0 && marks_tests(parts[place].children@[0])) by {
        lemma_marks(parts[place]);
    }
}

}
