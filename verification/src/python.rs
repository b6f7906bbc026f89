//! Python source analysis backed by Ruff's parser and AST.
//!
//! Ruff's AST is lowered into a plain syntax tree at the frontend boundary. The
//! rest of the analyzer therefore does not need to know about Python node
//! types, indentation tokens, or Ruff parser lifetimes.
use vstd::prelude::*;
use vstd::utf8::encode_utf8;
use ruff_python_ast::token::Token;
use ruff_python_ast::visitor::source_order::{
    walk_body, walk_module, SourceOrderVisitor, TraversalSignal,
};
use ruff_python_ast::{AnyNodeRef, PySourceType, PythonVersion, Stmt};
use ruff_python_parser::{parse_unchecked, ParseOptions};
use ruff_text_size::Ranged;
use crate::frontend_evidence::{attach_evidence, holds_evidence};
use crate::model::{Category, FileAnalysis, Language, LineCounts, MacroOpacity};
use crate::python_evidence::{list_holders, module_holders};
use crate::python_units::{collect_module, module_units};
use crate::spans::{
    cut, mark_lines, source_lines, text_between, token_range, touched_lines, LineSpan, LineTable,
    SourceToken, TokenRange,
};
use crate::syntax::{SyntaxNode, TreeBuilder};
use crate::text::{
    characters, fits, is_fitting, is_white_space, join, joined, length_refusal, same_text, texts,
    white_space,
};
use crate::units::{reports_all, SourceMap, SourceMapView};

verus! {

/// A node of Ruff's syntax tree, of whatever type.
#[verifier::external_type_specification]
#[verifier::external_body]
pub struct ExAnyNodeRef<'a>(ruff_python_ast::AnyNodeRef<'a>);

/// What a Ruff visitor answers on whether to go on.
#[verifier::external_type_specification]
#[verifier::external_body]
pub struct ExTraversalSignal(ruff_python_ast::visitor::source_order::TraversalSignal);

/// A statement of Ruff's syntax tree.
#[verifier::external_type_specification]
#[verifier::external_body]
pub struct ExStmt(ruff_python_ast::Stmt);

/// A token of Ruff's lexer.
#[verifier::external_type_specification]
#[verifier::external_body]
pub struct ExToken(ruff_python_ast::token::Token);

/// What the parser makes of Python source.
#[derive(Debug)]
pub struct ParsedPython {
    /// What is wrong with the syntax.
    pub errors: Vec<String>,
    /// What is right only in another version of the language.
    pub unsupported: Vec<String>,
    pub tree: Option<SyntaxNode>,
    pub tokens: Vec<SourceToken>,
}

struct PythonRecorder {
    builder: TreeBuilder,
}

/// What a Ruff node names, where it is a name. Nothing is said of it.
#[verifier::external_body]
fn name_text(node: AnyNodeRef) -> String {
    match node {
        AnyNodeRef::ExprName(name) => name.id.to_string(),
        AnyNodeRef::Identifier(identifier) => identifier.id.to_string(),
        _ => String::new(),
    }
}

impl<'a> SourceOrderVisitor<'a> for PythonRecorder {
    /// Opens a node as `ruff_python_ast` meets it: under the name of its kind.
    #[verifier::external_body]
    fn enter_node(&mut self, node: AnyNodeRef<'a>) -> TraversalSignal {
        let (start, end) = (node.start().to_usize(), node.end().to_usize());
        let name = format!("{:?}", node.kind());
        self.builder.open(name, name_text(node), Vec::new(), false, start, end);
        TraversalSignal::Traverse
    }

    /// Closes the node that was opened last.
    #[verifier::external_body]
    fn leave_node(&mut self, _node: AnyNodeRef<'a>) {
        self.builder.close();
    }

    /// Opens a node of its own for a list of statements, which has no place of
    /// its own.
    #[verifier::external_body]
    fn visit_body(&mut self, body: &'a [Stmt]) {
        self.builder.open("Body".to_owned(), String::new(), Vec::new(), false, 0, 0);
        walk_body(self, body);
        self.builder.close();
    }
}

/// A Ruff token under the name of its kind. Nothing is said of it.
#[verifier::external_body]
fn plain_token(token: &Token) -> SourceToken {
    SourceToken {
        kind: format!("{:?}", token.kind()),
        start: token.start().to_usize(),
        end: token.end().to_usize(),
    }
}

/// What `ruff_python_parser::parse_unchecked` makes of source as a Python
/// module of version 3.14, with the tree as `walk_module` walks it.
pub uninterp spec fn python_parse(source: Seq<char>) -> ParsedPython;

/// `ruff_python_parser::parse_unchecked` on a Python module of version 3.14:
/// its errors as texts, its tree as `ruff_python_ast`'s source-order visitor
/// walks it, and its tokens. All of it depends on the source alone. Ruff counts
/// bytes in 32 bits, and panics on longer source.
#[verifier::external_body]
fn parse(source: &str) -> (parsed: ParsedPython)
    requires
        fits(source@, u32::MAX),
    ensures
        parsed == python_parse(source@),
{
    let version = PythonVersion::PY314;
    let options = ParseOptions::from(PySourceType::Python).with_target_version(version);
    let parsed = parse_unchecked(source, options);
    let mut recorder = PythonRecorder { builder: TreeBuilder::new() };
    walk_module(&mut recorder, parsed.syntax());
    ParsedPython {
        errors: parsed.errors().iter().map(|error| error.to_string()).collect(),
        unsupported: parsed.unsupported_syntax_errors().iter().map(|e| e.to_string()).collect(),
        tree: recorder.builder.finish(),
        tokens: parsed.tokens().iter().map(plain_token).collect(),
    }
}

/// Whether a token is no more than layout.
pub open spec fn layout_token(kind: Seq<char>) -> bool {
    ||| kind == "Comment"@
    ||| kind == "Newline"@
    ||| kind == "NonLogicalNewline"@
    ||| kind == "Indent"@
    ||| kind == "Dedent"@
    ||| kind == "EndOfFile"@
}

fn is_layout_token(kind: &str) -> (answer: bool)
    ensures
        answer == layout_token(kind@),
{
    same_text(kind, "Comment") || same_text(kind, "Newline") || same_text(
        kind,
        "NonLogicalNewline",
    ) || same_text(kind, "Indent") || same_text(kind, "Dedent") || same_text(kind, "EndOfFile")
}

/// The tokens that count among the first `count`.
pub open spec fn counted_tokens(tokens: Seq<SourceToken>, count: nat) -> Seq<TokenRange>
    decreases count,
{
    if count == 0 {
        Seq::empty()
    } else {
        let earlier = counted_tokens(tokens, (count - 1) as nat);
        if layout_token(tokens[count - 1].kind@) {
            earlier
        } else {
            earlier.push(token_range(tokens[count - 1]))
        }
    }
}

/// The comments among the first `count` tokens.
pub open spec fn comment_tokens(tokens: Seq<SourceToken>, count: nat) -> Seq<TokenRange>
    decreases count,
{
    if count == 0 {
        Seq::empty()
    } else {
        let earlier = comment_tokens(tokens, (count - 1) as nat);
        if tokens[count - 1].kind@ == "Comment"@ {
            earlier.push(token_range(tokens[count - 1]))
        } else {
            earlier
        }
    }
}

fn split_tokens(tokens: &Vec<SourceToken>) -> (result: (Vec<TokenRange>, Vec<TokenRange>))
    ensures
        result.0@ == counted_tokens(tokens@, tokens@.len()),
        result.1@ == comment_tokens(tokens@, tokens@.len()),
{
    let mut counted: Vec<TokenRange> = Vec::new();
    let mut comments: Vec<TokenRange> = Vec::new();
    let mut index: usize = 0;
    while index < tokens.len()
        invariant
            index <= tokens@.len(),
            counted@ == counted_tokens(tokens@, index as nat),
            comments@ == comment_tokens(tokens@, index as nat),
        decreases tokens@.len() - index,
    {
        let token = &tokens[index];
        let range = TokenRange { start: token.start, end: token.end };
        if !is_layout_token(token.kind.as_str()) {
            counted.push(range);
        }
        if same_text(token.kind.as_str(), "Comment") {
            comments.push(range);
        }
        index += 1;
    }
    (counted, comments)
}

/// Whether a text starts with a hash sign, behind white space at most.
pub open spec fn hash_first(text: Seq<char>, index: int) -> bool
    decreases text.len() - index,
{
    if index >= text.len() {
        false
    } else if white_space(text[index]) {
        hash_first(text, index + 1)
    } else {
        text[index] == '#'
    }
}

fn starts_with_hash(text: &str) -> (answer: bool)
    ensures
        answer == hash_first(text@, 0),
{
    let all = characters(text);
    let mut index: usize = 0;
    while index < all.len() && is_white_space(all[index])
        invariant
            index <= all@.len(),
            all@ == text@,
            hash_first(text@, 0) == hash_first(text@, index as int),
        decreases all@.len() - index,
    {
        index += 1;
    }
    index < all.len() && all[index] == '#'
}

/// Whether a line is a comment by its tokens or by its text.
pub open spec fn comment_line(
    source: Seq<char>,
    lines: Seq<LineSpan>,
    comments: Seq<bool>,
    line: int,
) -> bool {
    comments[line] || hash_first(
        text_between(source, lines[line].start as int, lines[line].end as int),
        0,
    )
}

/// How many of the first `count` lines are code, how many comments.
pub open spec fn line_tally(
    source: Seq<char>,
    lines: Seq<LineSpan>,
    code: Seq<bool>,
    comments: Seq<bool>,
    count: nat,
) -> (nat, nat)
    decreases count,
{
    if count == 0 {
        (0, 0)
    } else {
        let earlier = line_tally(source, lines, code, comments, (count - 1) as nat);
        if code[count - 1] {
            (earlier.0 + 1, earlier.1)
        } else if comment_line(source, lines, comments, count - 1) {
            (earlier.0, earlier.1 + 1)
        } else {
            earlier
        }
    }
}

/// Whether counts are those of lines, each of them code, comment or blank.
pub open spec fn counts_lines(
    counts: LineCounts,
    source: Seq<char>,
    lines: Seq<LineSpan>,
    code: Seq<bool>,
    comments: Seq<bool>,
) -> bool {
    let tally = line_tally(source, lines, code, comments, lines.len());
    &&& counts.total == lines.len()
    &&& counts.code == tally.0
    &&& counts.comments == tally.1
    &&& counts.code + counts.comments + counts.blank == counts.total
}

fn count_lines(source: &str, table: &LineTable, code: &Vec<bool>, comments: &Vec<bool>) -> (counts: LineCounts)
    requires
        code@.len() == table.lines@.len(),
        comments@.len() == table.lines@.len(),
    ensures
        counts_lines(counts, source@, table.lines@, code@, comments@),
{
    let lines = &table.lines;
    let mut code_count: usize = 0;
    let mut comment_count: usize = 0;
    let mut index: usize = 0;
    while index < lines.len()
        invariant
            index <= lines@.len(),
            lines@ == table.lines@,
            code@.len() == lines@.len(),
            comments@.len() == lines@.len(),
            code_count + comment_count <= index,
            (code_count as nat, comment_count as nat) == line_tally(
                source@,
                lines@,
                code@,
                comments@,
                index as nat,
            ),
        decreases lines@.len() - index,
    {
        if code[index] {
            code_count += 1;
        } else {
            let by_text: bool = match cut(source, lines[index].start, lines[index].end) {
                Some(text) => starts_with_hash(text),
                None => false,
            };
            if comments[index] || by_text {
                comment_count += 1;
            }
        }
        index += 1;
    }
    LineCounts {
        total: lines.len(),
        code: code_count,
        comments: comment_count,
        blank: lines.len() - code_count - comment_count,
    }
}

/// Whether source starts with a byte-order mark.
pub open spec fn byte_order_mark(source: Seq<char>) -> bool {
    let bytes = encode_utf8(source);
    bytes.len() >= 3 && bytes[0] == 0xEF && bytes[1] == 0xBB && bytes[2] == 0xBF
}

pub(crate) fn has_byte_order_mark(source: &str) -> (answer: bool)
    ensures
        answer == byte_order_mark(source@),
{
    let bytes = source.as_bytes();
    bytes.len() >= 3 && bytes[0] == 0xEF && bytes[1] == 0xBB && bytes[2] == 0xBF
}

/// What a source file with a byte-order mark is refused with.
pub open spec fn mark_refusal() -> Seq<char> {
    "UTF-8 BOM is not supported; remove the BOM before analysis"@
}

/// Why Python source that was parsed is refused, if it is.
pub open spec fn python_refusal(parsed: ParsedPython) -> Option<Seq<char>> {
    if parsed.errors@.len() > 0 || parsed.unsupported@.len() > 0 {
        Some(joined(texts(parsed.errors@) + texts(parsed.unsupported@), "; "@))
    } else if parsed.tree is None || !parsed.tree->Some_0.named("ModModule"@) {
        Some("Python frontend produced a non-module syntax tree"@)
    } else {
        None
    }
}

/// The source map of Python source.
pub open spec fn python_map(source: Seq<char>, tokens: Seq<SourceToken>) -> SourceMapView {
    let lines = source_lines(encode_utf8(source), true);
    let counted = counted_tokens(tokens, tokens.len());
    SourceMapView {
        source,
        language: Language::Python,
        lines,
        code: touched_lines(lines, counted),
        tokens: counted,
        clamp_ends: true,
    }
}

/// Whether an analysis is that of parsed Python source.
pub open spec fn analyzes_python(
    analysis: FileAnalysis,
    source: Seq<char>,
    parsed: ParsedPython,
    category: Category,
) -> bool {
    let map = python_map(source, parsed.tokens@);
    let module = parsed.tree->Some_0;
    let length = encode_utf8(source).len() as usize;
    let comments = comment_tokens(parsed.tokens@, parsed.tokens@.len());
    &&& counts_lines(
        analysis.lines,
        source,
        map.lines,
        map.code,
        touched_lines(map.lines, comments),
    )
    &&& analysis.tokens == map.tokens.len()
    &&& reports_all(
        analysis.functions@,
        module_units(module, length, map.lines, category),
        map,
    )
    &&& analysis.macro_opacity == (MacroOpacity {
        invocations: 0,
        source_tokens: 0,
        definitions: 0,
        definition_tokens: 0,
    })
    &&& holds_evidence(
        analysis.evidence,
        map,
        analysis.functions@,
        module_holders(module, length, map.lines),
    )
}

fn format_parse_errors(parsed: &ParsedPython) -> (text: String)
    ensures
        text@ == joined(texts(parsed.errors@) + texts(parsed.unsupported@), "; "@),
{
    let mut messages = parsed.errors.clone();
    assert(messages@ =~= parsed.errors@);
    let mut index: usize = 0;
    assert(texts(messages@) =~= texts(parsed.errors@) + texts(parsed.unsupported@).take(0));
    while index < parsed.unsupported.len()
        invariant
            index <= parsed.unsupported@.len(),
            texts(messages@) =~= texts(parsed.errors@) + texts(parsed.unsupported@).take(
                index as int,
            ),
        decreases parsed.unsupported@.len() - index,
    {
        let ghost held = texts(messages@);
        messages.push(parsed.unsupported[index].clone());
        assert(texts(messages@) =~= held.push(texts(parsed.unsupported@)[index as int]));
        index += 1;
    }
    assert(texts(messages@) =~= texts(parsed.errors@) + texts(parsed.unsupported@));
    join(&messages, "; ")
}

/// Analyzes Python source that was parsed.
pub fn analyze_parsed(source: &str, parsed: &ParsedPython, category: Category) -> (result: Result<
    FileAnalysis,
    String,
>)
    ensures
        match (result, python_refusal(*parsed)) {
            (Ok(analysis), None) => analyzes_python(analysis, source@, *parsed, category),
            (Err(message), Some(expected)) => message@ == expected,
            _ => false,
        },
{
    if parsed.errors.len() > 0 || parsed.unsupported.len() > 0 {
        return Err(format_parse_errors(parsed));
    }
    let module = match &parsed.tree {
        Some(tree) => if tree.is("ModModule") {
            tree
        } else {
            return Err("Python frontend produced a non-module syntax tree".to_owned());
        },
        None => {
            return Err("Python frontend produced a non-module syntax tree".to_owned());
        },
    };
    let length: usize = source.as_bytes().len();
    let table = LineTable::new(source, true);
    let (tokens, comment_ranges) = split_tokens(&parsed.tokens);
    let code = mark_lines(&table, &tokens);
    let comments = mark_lines(&table, &comment_ranges);
    let lines = count_lines(source, &table, &code, &comments);
    let units = collect_module(module, length, &table, category);
    let holders = list_holders(module, length, &table);
    let map = SourceMap {
        source,
        language: Language::Python,
        table,
        code,
        tokens,
        clamp_ends: true,
    };
    let functions = map.make_reports(&units);
    let evidence = attach_evidence(&map, &functions, &holders);
    Ok(
        FileAnalysis {
            lines,
            tokens: map.tokens.len(),
            functions,
            macro_opacity: MacroOpacity {
                invocations: 0,
                source_tokens: 0,
                definitions: 0,
                definition_tokens: 0,
            },
            evidence,
        },
    )
}

/// Whether a result is that of analyzing Python source.
pub open spec fn analyzes_source(
    result: Result<FileAnalysis, String>,
    source: Seq<char>,
    category: Category,
) -> bool {
    if byte_order_mark(source) {
        result matches Err(message) && message@ == mark_refusal()
    } else if !fits(source, u32::MAX) {
        result matches Err(message) && message@ == length_refusal()
    } else {
        match (result, python_refusal(python_parse(source))) {
            (Ok(analysis), None) => analyzes_python(
                analysis,
                source,
                python_parse(source),
                category,
            ),
            (Err(message), Some(expected)) => message@ == expected,
            _ => false,
        }
    }
}

/// Analyze Python source using strict syntax validation. The frontend
/// intentionally leaves path and aggregate metadata to the caller.
pub fn analyze(source: &str, category: Category) -> (result: Result<FileAnalysis, String>)
    ensures
        analyzes_source(result, source@, category),
{
    if has_byte_order_mark(source) {
        return Err("UTF-8 BOM is not supported; remove the BOM before analysis".to_owned());
    }
    if !is_fitting(source, u32::MAX) {
        return Err("source is too long to analyze".to_owned());
    }
    let parsed = parse(source);
    analyze_parsed(source, &parsed, category)
}

/// Analyze the source of a Python file. Nothing depends on its path.
pub fn analyze_file(_path: &str, source: &str, category: Category) -> (result: Result<
    FileAnalysis,
    String,
>)
    ensures
        analyzes_source(result, source@, category),
{
    analyze(source, category)
}

}
