//! The kinds of nodes told apart.
use vstd::prelude::*;
use crate::text::begins;

verus! {

/// The character at a place, or a blank.
pub(crate) open spec fn letter(kind: Seq<char>, place: int) -> char {
    if place < kind.len() {
        kind[place]
    } else {
        ' '
    }
}

/// What kinds of nodes are told apart by.
#[verifier::opaque]
pub(crate) open spec fn mark(kind: Seq<char>) -> (nat, char, char, char, char) {
    (kind.len(), letter(kind, 0), letter(kind, 4), letter(kind, 6), letter(kind, 10))
}

pub(crate) proof fn lemma_rust_kinds()
    ensures
        mark("ExprIf"@) == (6nat, 'E', 'I', ' ', ' '),
        mark("ExprMatch"@) == (9nat, 'E', 'M', 't', ' '),
        mark("ExprLoop"@) == (8nat, 'E', 'L', 'o', ' '),
        mark("ExprForLoop"@) == (11nat, 'E', 'F', 'r', 'p'),
        mark("ExprWhile"@) == (9nat, 'E', 'W', 'i', ' '),
        mark("Arm"@) == (3nat, 'A', ' ', ' ', ' '),
        mark("ExprBinary"@) == (10nat, 'E', 'B', 'n', ' '),
        mark("ExprUnary"@) == (9nat, 'E', 'U', 'a', ' '),
        mark("ExprIndex"@) == (9nat, 'E', 'I', 'd', ' '),
        mark("ExprCast"@) == (8nat, 'E', 'C', 's', ' '),
        mark("ExprAssign"@) == (10nat, 'E', 'A', 's', ' '),
        mark("ExprReference"@) == (13nat, 'E', 'R', 'f', 'n'),
        mark("PatIdent"@) == (8nat, 'P', 'd', 'n', ' '),
        mark("ExprClosure"@) == (11nat, 'E', 'C', 'o', 'e'),
        mark("ExprReturn"@) == (10nat, 'E', 'R', 't', ' '),
        mark("ExprUnsafe"@) == (10nat, 'E', 'U', 's', ' '),
        mark("ExprMacro"@) == (9nat, 'E', 'M', 'c', ' '),
        mark("PatMacro"@) == (8nat, 'P', 'a', 'r', ' '),
        mark("ExprCall"@) == (8nat, 'E', 'C', 'l', ' '),
        mark("ExprMethodCall"@) == (14nat, 'E', 'M', 't', 'C'),
        mark("StmtExpr"@) == (8nat, 'S', 'E', 'p', ' '),
        mark("StmtMacro"@) == (9nat, 'S', 'M', 'c', ' '),
        mark("StmtItem"@) == (8nat, 'S', 'I', 'e', ' '),
        mark("StmtLocal"@) == (9nat, 'S', 'L', 'c', ' '),
        mark("Attribute"@) == (9nat, 'A', 'i', 'u', ' '),
        mark("Block"@) == (5nat, 'B', 'k', ' ', ' '),
{
    reveal(mark);
    assert(mark("ExprIf"@) == (6nat, 'E', 'I', ' ', ' ')) by {
        reveal_strlit("ExprIf");
    }
    assert(mark("ExprMatch"@) == (9nat, 'E', 'M', 't', ' ')) by {
        reveal_strlit("ExprMatch");
    }
    assert(mark("ExprLoop"@) == (8nat, 'E', 'L', 'o', ' ')) by {
        reveal_strlit("ExprLoop");
    }
    assert(mark("ExprForLoop"@) == (11nat, 'E', 'F', 'r', 'p')) by {
        reveal_strlit("ExprForLoop");
    }
    assert(mark("ExprWhile"@) == (9nat, 'E', 'W', 'i', ' ')) by {
        reveal_strlit("ExprWhile");
    }
    assert(mark("Arm"@) == (3nat, 'A', ' ', ' ', ' ')) by {
        reveal_strlit("Arm");
    }
    assert(mark("ExprBinary"@) == (10nat, 'E', 'B', 'n', ' ')) by {
        reveal_strlit("ExprBinary");
    }
    assert(mark("ExprUnary"@) == (9nat, 'E', 'U', 'a', ' ')) by {
        reveal_strlit("ExprUnary");
    }
    assert(mark("ExprIndex"@) == (9nat, 'E', 'I', 'd', ' ')) by {
        reveal_strlit("ExprIndex");
    }
    assert(mark("ExprCast"@) == (8nat, 'E', 'C', 's', ' ')) by {
        reveal_strlit("ExprCast");
    }
    assert(mark("ExprAssign"@) == (10nat, 'E', 'A', 's', ' ')) by {
        reveal_strlit("ExprAssign");
    }
    assert(mark("ExprReference"@) == (13nat, 'E', 'R', 'f', 'n')) by {
        reveal_strlit("ExprReference");
    }
    assert(mark("PatIdent"@) == (8nat, 'P', 'd', 'n', ' ')) by {
        reveal_strlit("PatIdent");
    }
    assert(mark("ExprClosure"@) == (11nat, 'E', 'C', 'o', 'e')) by {
        reveal_strlit("ExprClosure");
    }
    assert(mark("ExprReturn"@) == (10nat, 'E', 'R', 't', ' ')) by {
        reveal_strlit("ExprReturn");
    }
    assert(mark("ExprUnsafe"@) == (10nat, 'E', 'U', 's', ' ')) by {
        reveal_strlit("ExprUnsafe");
    }
    assert(mark("ExprMacro"@) == (9nat, 'E', 'M', 'c', ' ')) by {
        reveal_strlit("ExprMacro");
    }
    assert(mark("PatMacro"@) == (8nat, 'P', 'a', 'r', ' ')) by {
        reveal_strlit("PatMacro");
    }
    assert(mark("ExprCall"@) == (8nat, 'E', 'C', 'l', ' ')) by {
        reveal_strlit("ExprCall");
    }
    assert(mark("ExprMethodCall"@) == (14nat, 'E', 'M', 't', 'C')) by {
        reveal_strlit("ExprMethodCall");
    }
    assert(mark("StmtExpr"@) == (8nat, 'S', 'E', 'p', ' ')) by {
        reveal_strlit("StmtExpr");
    }
    assert(mark("StmtMacro"@) == (9nat, 'S', 'M', 'c', ' ')) by {
        reveal_strlit("StmtMacro");
    }
    assert(mark("StmtItem"@) == (8nat, 'S', 'I', 'e', ' ')) by {
        reveal_strlit("StmtItem");
    }
    assert(mark("StmtLocal"@) == (9nat, 'S', 'L', 'c', ' ')) by {
        reveal_strlit("StmtLocal");
    }
    assert(mark("Attribute"@) == (9nat, 'A', 'i', 'u', ' ')) by {
        reveal_strlit("Attribute");
    }
    assert(mark("Block"@) == (5nat, 'B', 'k', ' ', ' ')) by {
        reveal_strlit("Block");
    }
}

pub(crate) proof fn lemma_python_kinds()
    ensures
        mark("StmtIf"@) == (6nat, 'S', 'I', ' ', ' '),
        begins("StmtIf"@, "Stmt"@) == true,
        mark("ExprIf"@) == (6nat, 'E', 'I', ' ', ' '),
        begins("ExprIf"@, "Stmt"@) == false,
        mark("ExceptHandlerExceptHandler"@) == (26nat, 'E', 'p', 'H', 'l'),
        begins("ExceptHandlerExceptHandler"@, "Stmt"@) == false,
        mark("ElifElseClause"@) == (14nat, 'E', 'E', 's', 'a'),
        begins("ElifElseClause"@, "Stmt"@) == false,
        mark("StmtFor"@) == (7nat, 'S', 'F', 'r', ' '),
        begins("StmtFor"@, "Stmt"@) == true,
        mark("StmtWhile"@) == (9nat, 'S', 'W', 'i', ' '),
        begins("StmtWhile"@, "Stmt"@) == true,
        mark("Comprehension"@) == (13nat, 'C', 'r', 'h', 'i'),
        begins("Comprehension"@, "Stmt"@) == false,
        mark("StmtWith"@) == (8nat, 'S', 'W', 't', ' '),
        begins("StmtWith"@, "Stmt"@) == true,
        mark("StmtMatch"@) == (9nat, 'S', 'M', 't', ' '),
        begins("StmtMatch"@, "Stmt"@) == true,
        mark("StmtAssign"@) == (10nat, 'S', 'A', 's', ' '),
        begins("StmtAssign"@, "Stmt"@) == true,
        mark("StmtAugAssign"@) == (13nat, 'S', 'A', 'g', 'i'),
        begins("StmtAugAssign"@, "Stmt"@) == true,
        mark("StmtAnnAssign"@) == (13nat, 'S', 'A', 'n', 'i'),
        begins("StmtAnnAssign"@, "Stmt"@) == true,
        mark("StmtTypeAlias"@) == (13nat, 'S', 'T', 'p', 'i'),
        begins("StmtTypeAlias"@, "Stmt"@) == true,
        mark("ExprNamed"@) == (9nat, 'E', 'N', 'm', ' '),
        begins("ExprNamed"@, "Stmt"@) == false,
        mark("StmtDelete"@) == (10nat, 'S', 'D', 'l', ' '),
        begins("StmtDelete"@, "Stmt"@) == true,
        mark("StmtReturn"@) == (10nat, 'S', 'R', 't', ' '),
        begins("StmtReturn"@, "Stmt"@) == true,
        mark("ExprBoolOp"@) == (10nat, 'E', 'B', 'o', ' '),
        begins("ExprBoolOp"@, "Stmt"@) == false,
        mark("ExprCompare"@) == (11nat, 'E', 'C', 'm', 'e'),
        begins("ExprCompare"@, "Stmt"@) == false,
        mark("ExprBinOp"@) == (9nat, 'E', 'B', 'n', ' '),
        begins("ExprBinOp"@, "Stmt"@) == false,
        mark("ExprUnaryOp"@) == (11nat, 'E', 'U', 'a', 'p'),
        begins("ExprUnaryOp"@, "Stmt"@) == false,
        mark("ExprSubscript"@) == (13nat, 'E', 'S', 'b', 'i'),
        begins("ExprSubscript"@, "Stmt"@) == false,
        mark("ExprAwait"@) == (9nat, 'E', 'A', 'a', ' '),
        begins("ExprAwait"@, "Stmt"@) == false,
        mark("ExprYield"@) == (9nat, 'E', 'Y', 'e', ' '),
        begins("ExprYield"@, "Stmt"@) == false,
        mark("ExprYieldFrom"@) == (13nat, 'E', 'Y', 'e', 'r'),
        begins("ExprYieldFrom"@, "Stmt"@) == false,
        mark("ExprCall"@) == (8nat, 'E', 'C', 'l', ' '),
        begins("ExprCall"@, "Stmt"@) == false,
        mark("ExprLambda"@) == (10nat, 'E', 'L', 'm', ' '),
        begins("ExprLambda"@, "Stmt"@) == false,
        mark("StmtFunctionDef"@) == (15nat, 'S', 'F', 'n', 'o'),
        begins("StmtFunctionDef"@, "Stmt"@) == true,
        mark("StmtClassDef"@) == (12nat, 'S', 'C', 'a', 'e'),
        begins("StmtClassDef"@, "Stmt"@) == true,
        mark("StmtTry"@) == (7nat, 'S', 'T', 'y', ' '),
        begins("StmtTry"@, "Stmt"@) == true,
        mark("MatchCase"@) == (9nat, 'M', 'h', 'a', ' '),
        begins("MatchCase"@, "Stmt"@) == false,
        mark("ExprListComp"@) == (12nat, 'E', 'L', 's', 'm'),
        begins("ExprListComp"@, "Stmt"@) == false,
        mark("ExprSetComp"@) == (11nat, 'E', 'S', 't', 'p'),
        begins("ExprSetComp"@, "Stmt"@) == false,
        mark("ExprDictComp"@) == (12nat, 'E', 'D', 'c', 'm'),
        begins("ExprDictComp"@, "Stmt"@) == false,
        mark("ExprGenerator"@) == (13nat, 'E', 'G', 'n', 't'),
        begins("ExprGenerator"@, "Stmt"@) == false,
        mark("Parameters"@) == (10nat, 'P', 'm', 't', ' '),
        begins("Parameters"@, "Stmt"@) == false,
        mark("Arguments"@) == (9nat, 'A', 'm', 'n', ' '),
        begins("Arguments"@, "Stmt"@) == false,
        mark("ParameterWithDefault"@) == (20nat, 'P', 'm', 't', 'i'),
        begins("ParameterWithDefault"@, "Stmt"@) == false,
        mark("Body"@) == (4nat, 'B', ' ', ' ', ' '),
        begins("Body"@, "Stmt"@) == false,
        mark("WithItem"@) == (8nat, 'W', 'I', 'e', ' '),
        begins("WithItem"@, "Stmt"@) == false,
        mark("Keyword"@) == (7nat, 'K', 'o', 'd', ' '),
        begins("Keyword"@, "Stmt"@) == false,
{
    reveal(mark);
    reveal_strlit("Stmt");
    assert(mark("StmtIf"@) == (6nat, 'S', 'I', ' ', ' ')) by {
        reveal_strlit("StmtIf");
    }
    assert(begins("StmtIf"@, "Stmt"@)) by {
        reveal_strlit("StmtIf");
        assert("StmtIf"@.take(4) =~= "Stmt"@);
    }
    assert(mark("ExprIf"@) == (6nat, 'E', 'I', ' ', ' ')) by {
        reveal_strlit("ExprIf");
    }
    assert(!begins("ExprIf"@, "Stmt"@)) by {
        reveal_strlit("ExprIf");
        assert("ExprIf"@.take(4)[0] != "Stmt"@[0]);
    }
    assert(mark("ExceptHandlerExceptHandler"@) == (26nat, 'E', 'p', 'H', 'l')) by {
        reveal_strlit("ExceptHandlerExceptHandler");
    }
    assert(!begins("ExceptHandlerExceptHandler"@, "Stmt"@)) by {
        reveal_strlit("ExceptHandlerExceptHandler");
        assert("ExceptHandlerExceptHandler"@.take(4)[0] != "Stmt"@[0]);
    }
    assert(mark("ElifElseClause"@) == (14nat, 'E', 'E', 's', 'a')) by {
        reveal_strlit("ElifElseClause");
    }
    assert(!begins("ElifElseClause"@, "Stmt"@)) by {
        reveal_strlit("ElifElseClause");
        assert("ElifElseClause"@.take(4)[0] != "Stmt"@[0]);
    }
    assert(mark("StmtFor"@) == (7nat, 'S', 'F', 'r', ' ')) by {
        reveal_strlit("StmtFor");
    }
    assert(begins("StmtFor"@, "Stmt"@)) by {
        reveal_strlit("StmtFor");
        assert("StmtFor"@.take(4) =~= "Stmt"@);
    }
    assert(mark("StmtWhile"@) == (9nat, 'S', 'W', 'i', ' ')) by {
        reveal_strlit("StmtWhile");
    }
    assert(begins("StmtWhile"@, "Stmt"@)) by {
        reveal_strlit("StmtWhile");
        assert("StmtWhile"@.take(4) =~= "Stmt"@);
    }
    assert(mark("Comprehension"@) == (13nat, 'C', 'r', 'h', 'i')) by {
        reveal_strlit("Comprehension");
    }
    assert(!begins("Comprehension"@, "Stmt"@)) by {
        reveal_strlit("Comprehension");
        assert("Comprehension"@.take(4)[0] != "Stmt"@[0]);
    }
    assert(mark("StmtWith"@) == (8nat, 'S', 'W', 't', ' ')) by {
        reveal_strlit("StmtWith");
    }
    assert(begins("StmtWith"@, "Stmt"@)) by {
        reveal_strlit("StmtWith");
        assert("StmtWith"@.take(4) =~= "Stmt"@);
    }
    assert(mark("StmtMatch"@) == (9nat, 'S', 'M', 't', ' ')) by {
        reveal_strlit("StmtMatch");
    }
    assert(begins("StmtMatch"@, "Stmt"@)) by {
        reveal_strlit("StmtMatch");
        assert("StmtMatch"@.take(4) =~= "Stmt"@);
    }
    assert(mark("StmtAssign"@) == (10nat, 'S', 'A', 's', ' ')) by {
        reveal_strlit("StmtAssign");
    }
    assert(begins("StmtAssign"@, "Stmt"@)) by {
        reveal_strlit("StmtAssign");
        assert("StmtAssign"@.take(4) =~= "Stmt"@);
    }
    assert(mark("StmtAugAssign"@) == (13nat, 'S', 'A', 'g', 'i')) by {
        reveal_strlit("StmtAugAssign");
    }
    assert(begins("StmtAugAssign"@, "Stmt"@)) by {
        reveal_strlit("StmtAugAssign");
        assert("StmtAugAssign"@.take(4) =~= "Stmt"@);
    }
    assert(mark("StmtAnnAssign"@) == (13nat, 'S', 'A', 'n', 'i')) by {
        reveal_strlit("StmtAnnAssign");
    }
    assert(begins("StmtAnnAssign"@, "Stmt"@)) by {
        reveal_strlit("StmtAnnAssign");
        assert("StmtAnnAssign"@.take(4) =~= "Stmt"@);
    }
    assert(mark("StmtTypeAlias"@) == (13nat, 'S', 'T', 'p', 'i')) by {
        reveal_strlit("StmtTypeAlias");
    }
    assert(begins("StmtTypeAlias"@, "Stmt"@)) by {
        reveal_strlit("StmtTypeAlias");
        assert("StmtTypeAlias"@.take(4) =~= "Stmt"@);
    }
    assert(mark("ExprNamed"@) == (9nat, 'E', 'N', 'm', ' ')) by {
        reveal_strlit("ExprNamed");
    }
    assert(!begins("ExprNamed"@, "Stmt"@)) by {
        reveal_strlit("ExprNamed");
        assert("ExprNamed"@.take(4)[0] != "Stmt"@[0]);
    }
    assert(mark("StmtDelete"@) == (10nat, 'S', 'D', 'l', ' ')) by {
        reveal_strlit("StmtDelete");
    }
    assert(begins("StmtDelete"@, "Stmt"@)) by {
        reveal_strlit("StmtDelete");
        assert("StmtDelete"@.take(4) =~= "Stmt"@);
    }
    assert(mark("StmtReturn"@) == (10nat, 'S', 'R', 't', ' ')) by {
        reveal_strlit("StmtReturn");
    }
    assert(begins("StmtReturn"@, "Stmt"@)) by {
        reveal_strlit("StmtReturn");
        assert("StmtReturn"@.take(4) =~= "Stmt"@);
    }
    assert(mark("ExprBoolOp"@) == (10nat, 'E', 'B', 'o', ' ')) by {
        reveal_strlit("ExprBoolOp");
    }
    assert(!begins("ExprBoolOp"@, "Stmt"@)) by {
        reveal_strlit("ExprBoolOp");
        assert("ExprBoolOp"@.take(4)[0] != "Stmt"@[0]);
    }
    assert(mark("ExprCompare"@) == (11nat, 'E', 'C', 'm', 'e')) by {
        reveal_strlit("ExprCompare");
    }
    assert(!begins("ExprCompare"@, "Stmt"@)) by {
        reveal_strlit("ExprCompare");
        assert("ExprCompare"@.take(4)[0] != "Stmt"@[0]);
    }
    assert(mark("ExprBinOp"@) == (9nat, 'E', 'B', 'n', ' ')) by {
        reveal_strlit("ExprBinOp");
    }
    assert(!begins("ExprBinOp"@, "Stmt"@)) by {
        reveal_strlit("ExprBinOp");
        assert("ExprBinOp"@.take(4)[0] != "Stmt"@[0]);
    }
    assert(mark("ExprUnaryOp"@) == (11nat, 'E', 'U', 'a', 'p')) by {
        reveal_strlit("ExprUnaryOp");
    }
    assert(!begins("ExprUnaryOp"@, "Stmt"@)) by {
        reveal_strlit("ExprUnaryOp");
        assert("ExprUnaryOp"@.take(4)[0] != "Stmt"@[0]);
    }
    assert(mark("ExprSubscript"@) == (13nat, 'E', 'S', 'b', 'i')) by {
        reveal_strlit("ExprSubscript");
    }
    assert(!begins("ExprSubscript"@, "Stmt"@)) by {
        reveal_strlit("ExprSubscript");
        assert("ExprSubscript"@.take(4)[0] != "Stmt"@[0]);
    }
    assert(mark("ExprAwait"@) == (9nat, 'E', 'A', 'a', ' ')) by {
        reveal_strlit("ExprAwait");
    }
    assert(!begins("ExprAwait"@, "Stmt"@)) by {
        reveal_strlit("ExprAwait");
        assert("ExprAwait"@.take(4)[0] != "Stmt"@[0]);
    }
    assert(mark("ExprYield"@) == (9nat, 'E', 'Y', 'e', ' ')) by {
        reveal_strlit("ExprYield");
    }
    assert(!begins("ExprYield"@, "Stmt"@)) by {
        reveal_strlit("ExprYield");
        assert("ExprYield"@.take(4)[0] != "Stmt"@[0]);
    }
    assert(mark("ExprYieldFrom"@) == (13nat, 'E', 'Y', 'e', 'r')) by {
        reveal_strlit("ExprYieldFrom");
    }
    assert(!begins("ExprYieldFrom"@, "Stmt"@)) by {
        reveal_strlit("ExprYieldFrom");
        assert("ExprYieldFrom"@.take(4)[0] != "Stmt"@[0]);
    }
    assert(mark("ExprCall"@) == (8nat, 'E', 'C', 'l', ' ')) by {
        reveal_strlit("ExprCall");
    }
    assert(!begins("ExprCall"@, "Stmt"@)) by {
        reveal_strlit("ExprCall");
        assert("ExprCall"@.take(4)[0] != "Stmt"@[0]);
    }
    assert(mark("ExprLambda"@) == (10nat, 'E', 'L', 'm', ' ')) by {
        reveal_strlit("ExprLambda");
    }
    assert(!begins("ExprLambda"@, "Stmt"@)) by {
        reveal_strlit("ExprLambda");
        assert("ExprLambda"@.take(4)[0] != "Stmt"@[0]);
    }
    assert(mark("StmtFunctionDef"@) == (15nat, 'S', 'F', 'n', 'o')) by {
        reveal_strlit("StmtFunctionDef");
    }
    assert(begins("StmtFunctionDef"@, "Stmt"@)) by {
        reveal_strlit("StmtFunctionDef");
        assert("StmtFunctionDef"@.take(4) =~= "Stmt"@);
    }
    assert(mark("StmtClassDef"@) == (12nat, 'S', 'C', 'a', 'e')) by {
        reveal_strlit("StmtClassDef");
    }
    assert(begins("StmtClassDef"@, "Stmt"@)) by {
        reveal_strlit("StmtClassDef");
        assert("StmtClassDef"@.take(4) =~= "Stmt"@);
    }
    assert(mark("StmtTry"@) == (7nat, 'S', 'T', 'y', ' ')) by {
        reveal_strlit("StmtTry");
    }
    assert(begins("StmtTry"@, "Stmt"@)) by {
        reveal_strlit("StmtTry");
        assert("StmtTry"@.take(4) =~= "Stmt"@);
    }
    assert(mark("MatchCase"@) == (9nat, 'M', 'h', 'a', ' ')) by {
        reveal_strlit("MatchCase");
    }
    assert(!begins("MatchCase"@, "Stmt"@)) by {
        reveal_strlit("MatchCase");
        assert("MatchCase"@.take(4)[0] != "Stmt"@[0]);
    }
    assert(mark("ExprListComp"@) == (12nat, 'E', 'L', 's', 'm')) by {
        reveal_strlit("ExprListComp");
    }
    assert(!begins("ExprListComp"@, "Stmt"@)) by {
        reveal_strlit("ExprListComp");
        assert("ExprListComp"@.take(4)[0] != "Stmt"@[0]);
    }
    assert(mark("ExprSetComp"@) == (11nat, 'E', 'S', 't', 'p')) by {
        reveal_strlit("ExprSetComp");
    }
    assert(!begins("ExprSetComp"@, "Stmt"@)) by {
        reveal_strlit("ExprSetComp");
        assert("ExprSetComp"@.take(4)[0] != "Stmt"@[0]);
    }
    assert(mark("ExprDictComp"@) == (12nat, 'E', 'D', 'c', 'm')) by {
        reveal_strlit("ExprDictComp");
    }
    assert(!begins("ExprDictComp"@, "Stmt"@)) by {
        reveal_strlit("ExprDictComp");
        assert("ExprDictComp"@.take(4)[0] != "Stmt"@[0]);
    }
    assert(mark("ExprGenerator"@) == (13nat, 'E', 'G', 'n', 't')) by {
        reveal_strlit("ExprGenerator");
    }
    assert(!begins("ExprGenerator"@, "Stmt"@)) by {
        reveal_strlit("ExprGenerator");
        assert("ExprGenerator"@.take(4)[0] != "Stmt"@[0]);
    }
    assert(mark("Parameters"@) == (10nat, 'P', 'm', 't', ' ')) by {
        reveal_strlit("Parameters");
    }
    assert(!begins("Parameters"@, "Stmt"@)) by {
        reveal_strlit("Parameters");
        assert("Parameters"@.take(4)[0] != "Stmt"@[0]);
    }
    assert(mark("Arguments"@) == (9nat, 'A', 'm', 'n', ' ')) by {
        reveal_strlit("Arguments");
    }
    assert(!begins("Arguments"@, "Stmt"@)) by {
        reveal_strlit("Arguments");
        assert("Arguments"@.take(4)[0] != "Stmt"@[0]);
    }
    assert(mark("ParameterWithDefault"@) == (20nat, 'P', 'm', 't', 'i')) by {
        reveal_strlit("ParameterWithDefault");
    }
    assert(!begins("ParameterWithDefault"@, "Stmt"@)) by {
        reveal_strlit("ParameterWithDefault");
        assert("ParameterWithDefault"@.take(4)[0] != "Stmt"@[0]);
    }
    assert(mark("Body"@) == (4nat, 'B', ' ', ' ', ' ')) by {
        reveal_strlit("Body");
    }
    assert(!begins("Body"@, "Stmt"@)) by {
        reveal_strlit("Body");
        assert("Body"@.take(4)[0] != "Stmt"@[0]);
    }
    assert(mark("WithItem"@) == (8nat, 'W', 'I', 'e', ' ')) by {
        reveal_strlit("WithItem");
    }
    assert(!begins("WithItem"@, "Stmt"@)) by {
        reveal_strlit("WithItem");
        assert("WithItem"@.take(4)[0] != "Stmt"@[0]);
    }
    assert(mark("Keyword"@) == (7nat, 'K', 'o', 'd', ' ')) by {
        reveal_strlit("Keyword");
    }
    assert(!begins("Keyword"@, "Stmt"@)) by {
        reveal_strlit("Keyword");
        assert("Keyword"@.take(4)[0] != "Stmt"@[0]);
    }
}

pub(crate) proof fn lemma_javascript_kinds()
    ensures
        mark("VariableDeclaration"@) == (19nat, 'V', 'a', 'l', 'c'),
        mark("ExpressionStatement"@) == (19nat, 'E', 'e', 's', 'S'),
        mark("IfStatement"@) == (11nat, 'I', 'a', 'e', 't'),
        mark("DoWhileStatement"@) == (16nat, 'D', 'i', 'e', 't'),
        mark("WhileStatement"@) == (14nat, 'W', 'e', 't', 'm'),
        mark("ForStatement"@) == (12nat, 'F', 't', 't', 'n'),
        mark("ForInStatement"@) == (14nat, 'F', 'n', 't', 'm'),
        mark("ForOfStatement"@) == (14nat, 'F', 'f', 't', 'm'),
        mark("ReturnStatement"@) == (15nat, 'R', 'r', 'S', 'e'),
        mark("SwitchStatement"@) == (15nat, 'S', 'c', 'S', 'e'),
        mark("ThrowStatement"@) == (14nat, 'T', 'w', 't', 'm'),
        mark("TryStatement"@) == (12nat, 'T', 't', 't', 'n'),
        mark("WithStatement"@) == (13nat, 'W', 'S', 'a', 'e'),
        mark("BreakStatement"@) == (14nat, 'B', 'k', 't', 'm'),
        mark("ContinueStatement"@) == (17nat, 'C', 'i', 'u', 'a'),
        mark("DebuggerStatement"@) == (17nat, 'D', 'g', 'e', 'a'),
        mark("LabeledStatement"@) == (16nat, 'L', 'l', 'd', 't'),
        mark("ExportDeclaration"@) == (17nat, 'E', 'r', 'D', 'a'),
        mark("Function"@) == (8nat, 'F', 't', 'o', ' '),
        mark("ImportDeclaration"@) == (17nat, 'I', 'r', 'D', 'a'),
        mark("ExportNamedDeclaration"@) == (22nat, 'E', 'r', 'N', 'd'),
        mark("ExportFromDeclaration"@) == (21nat, 'E', 'r', 'F', 'D'),
        mark("ExportAllDeclaration"@) == (20nat, 'E', 'r', 'A', 'e'),
        mark("TSTypeAliasDeclaration"@) == (22nat, 'T', 'p', 'A', 's'),
        mark("TSInterfaceDeclaration"@) == (22nat, 'T', 't', 'r', 'e'),
        mark("TSEnumDeclaration"@) == (17nat, 'T', 'u', 'D', 'a'),
        mark("TSModuleDeclaration"@) == (19nat, 'T', 'd', 'l', 'c'),
        mark("TSGlobalDeclaration"@) == (19nat, 'T', 'o', 'a', 'c'),
        mark("TSImportEqualsDeclaration"@) == (25nat, 'T', 'p', 'r', 'u'),
        mark("ConditionalExpression"@) == (21nat, 'C', 'i', 'i', 'l'),
        mark("BinaryExpression"@) == (16nat, 'B', 'r', 'E', 'e'),
        mark("UnaryExpression"@) == (15nat, 'U', 'y', 'x', 's'),
        mark("ComputedMemberExpression"@) == (24nat, 'C', 'u', 'e', 'm'),
        mark("PrivateInExpression"@) == (19nat, 'P', 'a', 'e', 'x'),
        mark("CallExpression"@) == (14nat, 'C', 'E', 'p', 's'),
        mark("NewExpression"@) == (13nat, 'N', 'x', 'r', 'i'),
        mark("TaggedTemplateExpression"@) == (24nat, 'T', 'e', 'T', 'l'),
        mark("ImportExpression"@) == (16nat, 'I', 'r', 'E', 'e'),
        mark("ArrowFunctionExpression"@) == (23nat, 'A', 'w', 'u', 'i'),
        mark("AssignmentExpression"@) == (20nat, 'A', 'g', 'm', 'E'),
        mark("UpdateExpression"@) == (16nat, 'U', 't', 'E', 'e'),
        mark("LogicalExpression"@) == (17nat, 'L', 'c', 'l', 'r'),
        mark("ChainExpression"@) == (15nat, 'C', 'n', 'x', 's'),
        mark("SequenceExpression"@) == (18nat, 'S', 'e', 'c', 'p'),
        mark("ArrayAssignmentTarget"@) == (21nat, 'A', 'y', 's', 'n'),
        mark("AssignmentTargetPropertyProperty"@) == (32nat, 'A', 'g', 'm', 'T'),
        mark("AssignmentTargetWithDefault"@) == (27nat, 'A', 'g', 'm', 'T'),
        mark("AssignmentTargetRest"@) == (20nat, 'A', 'g', 'm', 'T'),
        mark("Class"@) == (5nat, 'C', 's', ' ', ' '),
        mark("ExportDefaultDeclaration"@) == (24nat, 'E', 'r', 'D', 'u'),
        mark("VariableDeclarator"@) == (18nat, 'V', 'a', 'l', 'c'),
        mark("CatchClause"@) == (11nat, 'C', 'h', 'l', 'e'),
        mark("FormalParameterRest"@) == (19nat, 'F', 'a', 'P', 'm'),
        mark("FormalParameter"@) == (15nat, 'F', 'a', 'P', 'm'),
        mark("Decorator"@) == (9nat, 'D', 'r', 't', ' '),
        mark("SwitchCase"@) == (10nat, 'S', 'c', 'C', ' '),
{
    reveal(mark);
    assert(mark("VariableDeclaration"@) == (19nat, 'V', 'a', 'l', 'c')) by {
        reveal_strlit("VariableDeclaration");
    }
    assert(mark("ExpressionStatement"@) == (19nat, 'E', 'e', 's', 'S')) by {
        reveal_strlit("ExpressionStatement");
    }
    assert(mark("IfStatement"@) == (11nat, 'I', 'a', 'e', 't')) by {
        reveal_strlit("IfStatement");
    }
    assert(mark("DoWhileStatement"@) == (16nat, 'D', 'i', 'e', 't')) by {
        reveal_strlit("DoWhileStatement");
    }
    assert(mark("WhileStatement"@) == (14nat, 'W', 'e', 't', 'm')) by {
        reveal_strlit("WhileStatement");
    }
    assert(mark("ForStatement"@) == (12nat, 'F', 't', 't', 'n')) by {
        reveal_strlit("ForStatement");
    }
    assert(mark("ForInStatement"@) == (14nat, 'F', 'n', 't', 'm')) by {
        reveal_strlit("ForInStatement");
    }
    assert(mark("ForOfStatement"@) == (14nat, 'F', 'f', 't', 'm')) by {
        reveal_strlit("ForOfStatement");
    }
    assert(mark("ReturnStatement"@) == (15nat, 'R', 'r', 'S', 'e')) by {
        reveal_strlit("ReturnStatement");
    }
    assert(mark("SwitchStatement"@) == (15nat, 'S', 'c', 'S', 'e')) by {
        reveal_strlit("SwitchStatement");
    }
    assert(mark("ThrowStatement"@) == (14nat, 'T', 'w', 't', 'm')) by {
        reveal_strlit("ThrowStatement");
    }
    assert(mark("TryStatement"@) == (12nat, 'T', 't', 't', 'n')) by {
        reveal_strlit("TryStatement");
    }
    assert(mark("WithStatement"@) == (13nat, 'W', 'S', 'a', 'e')) by {
        reveal_strlit("WithStatement");
    }
    assert(mark("BreakStatement"@) == (14nat, 'B', 'k', 't', 'm')) by {
        reveal_strlit("BreakStatement");
    }
    assert(mark("ContinueStatement"@) == (17nat, 'C', 'i', 'u', 'a')) by {
        reveal_strlit("ContinueStatement");
    }
    assert(mark("DebuggerStatement"@) == (17nat, 'D', 'g', 'e', 'a')) by {
        reveal_strlit("DebuggerStatement");
    }
    assert(mark("LabeledStatement"@) == (16nat, 'L', 'l', 'd', 't')) by {
        reveal_strlit("LabeledStatement");
    }
    assert(mark("ExportDeclaration"@) == (17nat, 'E', 'r', 'D', 'a')) by {
        reveal_strlit("ExportDeclaration");
    }
    assert(mark("Function"@) == (8nat, 'F', 't', 'o', ' ')) by {
        reveal_strlit("Function");
    }
    assert(mark("ImportDeclaration"@) == (17nat, 'I', 'r', 'D', 'a')) by {
        reveal_strlit("ImportDeclaration");
    }
    assert(mark("ExportNamedDeclaration"@) == (22nat, 'E', 'r', 'N', 'd')) by {
        reveal_strlit("ExportNamedDeclaration");
    }
    assert(mark("ExportFromDeclaration"@) == (21nat, 'E', 'r', 'F', 'D')) by {
        reveal_strlit("ExportFromDeclaration");
    }
    assert(mark("ExportAllDeclaration"@) == (20nat, 'E', 'r', 'A', 'e')) by {
        reveal_strlit("ExportAllDeclaration");
    }
    assert(mark("TSTypeAliasDeclaration"@) == (22nat, 'T', 'p', 'A', 's')) by {
        reveal_strlit("TSTypeAliasDeclaration");
    }
    assert(mark("TSInterfaceDeclaration"@) == (22nat, 'T', 't', 'r', 'e')) by {
        reveal_strlit("TSInterfaceDeclaration");
    }
    assert(mark("TSEnumDeclaration"@) == (17nat, 'T', 'u', 'D', 'a')) by {
        reveal_strlit("TSEnumDeclaration");
    }
    assert(mark("TSModuleDeclaration"@) == (19nat, 'T', 'd', 'l', 'c')) by {
        reveal_strlit("TSModuleDeclaration");
    }
    assert(mark("TSGlobalDeclaration"@) == (19nat, 'T', 'o', 'a', 'c')) by {
        reveal_strlit("TSGlobalDeclaration");
    }
    assert(mark("TSImportEqualsDeclaration"@) == (25nat, 'T', 'p', 'r', 'u')) by {
        reveal_strlit("TSImportEqualsDeclaration");
    }
    assert(mark("ConditionalExpression"@) == (21nat, 'C', 'i', 'i', 'l')) by {
        reveal_strlit("ConditionalExpression");
    }
    assert(mark("BinaryExpression"@) == (16nat, 'B', 'r', 'E', 'e')) by {
        reveal_strlit("BinaryExpression");
    }
    assert(mark("UnaryExpression"@) == (15nat, 'U', 'y', 'x', 's')) by {
        reveal_strlit("UnaryExpression");
    }
    assert(mark("ComputedMemberExpression"@) == (24nat, 'C', 'u', 'e', 'm')) by {
        reveal_strlit("ComputedMemberExpression");
    }
    assert(mark("PrivateInExpression"@) == (19nat, 'P', 'a', 'e', 'x')) by {
        reveal_strlit("PrivateInExpression");
    }
    assert(mark("CallExpression"@) == (14nat, 'C', 'E', 'p', 's')) by {
        reveal_strlit("CallExpression");
    }
    assert(mark("NewExpression"@) == (13nat, 'N', 'x', 'r', 'i')) by {
        reveal_strlit("NewExpression");
    }
    assert(mark("TaggedTemplateExpression"@) == (24nat, 'T', 'e', 'T', 'l')) by {
        reveal_strlit("TaggedTemplateExpression");
    }
    assert(mark("ImportExpression"@) == (16nat, 'I', 'r', 'E', 'e')) by {
        reveal_strlit("ImportExpression");
    }
    assert(mark("ArrowFunctionExpression"@) == (23nat, 'A', 'w', 'u', 'i')) by {
        reveal_strlit("ArrowFunctionExpression");
    }
    assert(mark("AssignmentExpression"@) == (20nat, 'A', 'g', 'm', 'E')) by {
        reveal_strlit("AssignmentExpression");
    }
    assert(mark("UpdateExpression"@) == (16nat, 'U', 't', 'E', 'e')) by {
        reveal_strlit("UpdateExpression");
    }
    assert(mark("LogicalExpression"@) == (17nat, 'L', 'c', 'l', 'r')) by {
        reveal_strlit("LogicalExpression");
    }
    assert(mark("ChainExpression"@) == (15nat, 'C', 'n', 'x', 's')) by {
        reveal_strlit("ChainExpression");
    }
    assert(mark("SequenceExpression"@) == (18nat, 'S', 'e', 'c', 'p')) by {
        reveal_strlit("SequenceExpression");
    }
    assert(mark("ArrayAssignmentTarget"@) == (21nat, 'A', 'y', 's', 'n')) by {
        reveal_strlit("ArrayAssignmentTarget");
    }
    assert(mark("AssignmentTargetPropertyProperty"@) == (32nat, 'A', 'g', 'm', 'T')) by {
        reveal_strlit("AssignmentTargetPropertyProperty");
    }
    assert(mark("AssignmentTargetWithDefault"@) == (27nat, 'A', 'g', 'm', 'T')) by {
        reveal_strlit("AssignmentTargetWithDefault");
    }
    assert(mark("AssignmentTargetRest"@) == (20nat, 'A', 'g', 'm', 'T')) by {
        reveal_strlit("AssignmentTargetRest");
    }
    assert(mark("Class"@) == (5nat, 'C', 's', ' ', ' ')) by {
        reveal_strlit("Class");
    }
    assert(mark("ExportDefaultDeclaration"@) == (24nat, 'E', 'r', 'D', 'u')) by {
        reveal_strlit("ExportDefaultDeclaration");
    }
    assert(mark("VariableDeclarator"@) == (18nat, 'V', 'a', 'l', 'c')) by {
        reveal_strlit("VariableDeclarator");
    }
    assert(mark("CatchClause"@) == (11nat, 'C', 'h', 'l', 'e')) by {
        reveal_strlit("CatchClause");
    }
    assert(mark("FormalParameterRest"@) == (19nat, 'F', 'a', 'P', 'm')) by {
        reveal_strlit("FormalParameterRest");
    }
    assert(mark("FormalParameter"@) == (15nat, 'F', 'a', 'P', 'm')) by {
        reveal_strlit("FormalParameter");
    }
    assert(mark("Decorator"@) == (9nat, 'D', 'r', 't', ' ')) by {
        reveal_strlit("Decorator");
    }
    assert(mark("SwitchCase"@) == (10nat, 'S', 'c', 'C', ' ')) by {
        reveal_strlit("SwitchCase");
    }
}

pub(crate) proof fn lemma_module_kinds()
    ensures
        mark("EmptyStatement"@) == (14nat, 'E', 'y', 't', 'm'),
        mark("Hashbang"@) == (8nat, 'H', 'b', 'n', ' '),
        mark("Directive"@) == (9nat, 'D', 'c', 'i', ' '),
        mark("ParenthesizedExpression"@) == (23nat, 'P', 'n', 'h', 'z'),
        mark("TSAsExpression"@) == (14nat, 'T', 'E', 'p', 's'),
        mark("TSSatisfiesExpression"@) == (21nat, 'T', 't', 's', 's'),
        mark("TSTypeAssertion"@) == (15nat, 'T', 'p', 'A', 'r'),
        mark("TSNonNullExpression"@) == (19nat, 'T', 'n', 'u', 'x'),
        mark("TSInstantiationExpression"@) == (25nat, 'T', 's', 'a', 'a'),
{
    reveal(mark);
    assert(mark("EmptyStatement"@) == (14nat, 'E', 'y', 't', 'm')) by {
        reveal_strlit("EmptyStatement");
    }
    assert(mark("Hashbang"@) == (8nat, 'H', 'b', 'n', ' ')) by {
        reveal_strlit("Hashbang");
    }
    assert(mark("Directive"@) == (9nat, 'D', 'c', 'i', ' ')) by {
        reveal_strlit("Directive");
    }
    assert(mark("ParenthesizedExpression"@) == (23nat, 'P', 'n', 'h', 'z')) by {
        reveal_strlit("ParenthesizedExpression");
    }
    assert(mark("TSAsExpression"@) == (14nat, 'T', 'E', 'p', 's')) by {
        reveal_strlit("TSAsExpression");
    }
    assert(mark("TSSatisfiesExpression"@) == (21nat, 'T', 't', 's', 's')) by {
        reveal_strlit("TSSatisfiesExpression");
    }
    assert(mark("TSTypeAssertion"@) == (15nat, 'T', 'p', 'A', 'r')) by {
        reveal_strlit("TSTypeAssertion");
    }
    assert(mark("TSNonNullExpression"@) == (19nat, 'T', 'n', 'u', 'x')) by {
        reveal_strlit("TSNonNullExpression");
    }
    assert(mark("TSInstantiationExpression"@) == (25nat, 'T', 's', 'a', 'a')) by {
        reveal_strlit("TSInstantiationExpression");
    }
}

}
