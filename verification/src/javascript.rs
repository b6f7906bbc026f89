//! JavaScript, JSX, TypeScript, and TSX analysis backed by Oxc.
//!
//! The frontend deliberately uses Oxc's `VisitJs` visitor. That visitor keeps
//! runtime expressions in TypeScript while pruning type grammar, which makes
//! the structural score describe emitted JavaScript rather than annotations.
use vstd::prelude::*;
use vstd::string::StringExecFns;
use vstd::utf8::encode_utf8;
use oxc_allocator::Allocator;
use oxc_ast::ast::Statement;
use oxc_ast::AstKind;
use oxc_ast_visit::walk_js::walk_statement;
use oxc_ast_visit::VisitJs;
use oxc_parser::config::TokensParserConfig;
use oxc_parser::{ParseOptions, Parser, Token};
use oxc_span::{GetSpan, SourceType};
use crate::frontend_evidence::{attach_met, met_evidence};
use crate::javascript_evidence::{list_met, met_in_program};
use crate::javascript_units::{collect_program, program_units};
use crate::model::{Category, FileAnalysis, Language, LineCounts, MacroOpacity};
use crate::paths::{extension, extension_of};
use crate::python::{byte_order_mark, has_byte_order_mark, mark_refusal};
use crate::spans::{
    mark_lines, source_lines, token_range, touched_lines, LineTable, SourceToken, TokenRange,
};
use crate::syntax::{SyntaxNode, TreeBuilder};
use crate::text::{join, joined, same_text, texts};
use crate::units::{reports_all, SourceMap, SourceMapView};

verus! {

/// Oxc version pinned by the Cargo manifest and embedded in the frontend
/// contract. Keeping this explicit makes parser changes reviewable.
pub const OXC_VERSION: &'static str = "0.143.0";

/// A node of Oxc's syntax tree, of whatever type.
#[verifier::external_type_specification]
#[verifier::external_body]
pub struct ExAstKind<'a>(oxc_ast::AstKind<'a>);

/// A statement of Oxc's syntax tree.
#[verifier::external_type_specification]
#[verifier::external_body]
pub struct ExScriptStatement<'a>(oxc_ast::ast::Statement<'a>);

/// A token of Oxc's lexer.
#[verifier::external_type_specification]
#[verifier::external_body]
pub struct ExScriptToken(oxc_parser::Token);

/// The four source modes exposed by the frontend. Extensions are intentionally
/// mapped explicitly so a `.js` file cannot silently acquire JSX grammar.
#[derive(Clone, Copy, Debug, PartialEq, Eq, Structural)]
pub enum SourceMode {
    JavaScript,
    JavaScriptJsx,
    TypeScript,
    TypeScriptJsx,
}

/// The mode of a file with an extension.
pub open spec fn extension_mode(name: Seq<char>) -> Option<SourceMode> {
    if name == "js"@ {
        Some(SourceMode::JavaScript)
    } else if name == "jsx"@ {
        Some(SourceMode::JavaScriptJsx)
    } else if name == "ts"@ {
        Some(SourceMode::TypeScript)
    } else if name == "tsx"@ {
        Some(SourceMode::TypeScriptJsx)
    } else {
        None
    }
}

/// Why a path has no mode.
pub open spec fn mode_refusal(path: Seq<char>) -> Seq<char> {
    match extension(path) {
        Some(name) => "unsupported JavaScript frontend extension ."@ + name
            + "; expected .js, .jsx, .ts, or .tsx"@,
        None => "JavaScript frontend requires a .js, .jsx, .ts, or .tsx file extension"@,
    }
}

/// The mode of a path.
pub open spec fn path_mode(path: Seq<char>) -> Option<SourceMode> {
    match extension(path) {
        Some(name) => extension_mode(name),
        None => None,
    }
}

/// Whether a mode has TypeScript's grammar.
pub open spec fn typed(mode: SourceMode) -> bool {
    mode == SourceMode::TypeScript || mode == SourceMode::TypeScriptJsx
}

/// Whether a mode has JSX's grammar.
pub open spec fn with_markup(mode: SourceMode) -> bool {
    mode == SourceMode::JavaScriptJsx || mode == SourceMode::TypeScriptJsx
}

/// How a mode is written.
pub open spec fn mode_text(mode: SourceMode) -> Seq<char> {
    match mode {
        SourceMode::JavaScript => "javascript"@,
        SourceMode::JavaScriptJsx => "javascript-jsx"@,
        SourceMode::TypeScript => "typescript"@,
        SourceMode::TypeScriptJsx => "typescript-jsx"@,
    }
}

impl SourceMode {
    /// Infer a mode from one of the four supported frontend extensions.
    pub fn from_path(path: &str) -> (result: Result<Self, String>)
        ensures
            match (result, path_mode(path@)) {
                (Ok(mode), Some(expected)) => mode == expected,
                (Err(message), None) => message@ == mode_refusal(path@),
                _ => false,
            },
    {
        match extension_of(path) {
            Some(name) => {
                let text = name.as_str();
                if same_text(text, "js") {
                    Ok(SourceMode::JavaScript)
                } else if same_text(text, "jsx") {
                    Ok(SourceMode::JavaScriptJsx)
                } else if same_text(text, "ts") {
                    Ok(SourceMode::TypeScript)
                } else if same_text(text, "tsx") {
                    Ok(SourceMode::TypeScriptJsx)
                } else {
                    let mut message = "unsupported JavaScript frontend extension .".to_owned();
                    message.append(text);
                    message.append("; expected .js, .jsx, .ts, or .tsx");
                    Err(message)
                }
            },
            None => Err(
                "JavaScript frontend requires a .js, .jsx, .ts, or .tsx file extension".to_owned(),
            ),
        }
    }

    pub fn serialized(self) -> (text: &'static str)
        ensures
            text@ == mode_text(self),
    {
        match self {
            SourceMode::JavaScript => "javascript",
            SourceMode::JavaScriptJsx => "javascript-jsx",
            SourceMode::TypeScript => "typescript",
            SourceMode::TypeScriptJsx => "typescript-jsx",
        }
    }
}

/// What the parser makes of JavaScript or TypeScript source.
#[derive(Debug)]
pub struct ParsedScript {
    /// Whether the parser gave up.
    pub panicked: bool,
    /// What is wrong with the syntax.
    pub diagnostics: Vec<String>,
    pub tree: Option<SyntaxNode>,
    pub tokens: Vec<SourceToken>,
}

struct ScriptRecorder {
    builder: TreeBuilder,
}

/// What an Oxc node carries beside its type: the name of an identifier,
/// whether a function is an expression, whether a key is computed. Nothing is
/// said of it.
#[verifier::external_body]
fn node_text(kind: AstKind) -> String {
    match kind {
        AstKind::IdentifierName(node) => node.name.to_string(),
        AstKind::IdentifierReference(node) => node.name.to_string(),
        AstKind::BindingIdentifier(node) => node.name.to_string(),
        AstKind::PrivateIdentifier(node) => node.name.to_string(),
        AstKind::Function(node) => node.is_expression().to_string(),
        AstKind::PropertyDefinition(node) => node.computed.to_string(),
        AstKind::AccessorProperty(node) => node.computed.to_string(),
        _ => String::new(),
    }
}

impl ScriptRecorder {
    /// Records a node that has no parts.
    fn record_bare(&mut self, kind: &str, start: u32, end: u32)
        ensures
            old(self).builder@.len() > 0 ==> {
                let added = final(self).builder@.last().children@;
                &&& final(self).builder@.len() == old(self).builder@.len()
                &&& added.drop_last() == old(self).builder@.last().children@
                &&& added.last().kind@ == kind@
                &&& added.last().start == start
                &&& added.last().end == end
                &&& added.last().children@.len() == 0
            },
    {
        let name = kind.to_owned();
        self.builder.open(name, String::new(), Vec::new(), false, start as usize, end as usize);
        let ghost opened = self.builder@;
        assert(opened[opened.len() - 1].kind@ == kind@);
        self.builder.close();
        proof {
            if old(self).builder@.len() > 0 {
                let held = old(self).builder@;
                assert(opened.drop_last()[held.len() - 1] == held.last());
                assert(self.builder@.last().children@.drop_last() =~= held.last().children@);
            }
        }
    }
}

impl<'a> VisitJs<'a> for ScriptRecorder {
    /// Opens a node as `oxc_ast_visit` meets it: under the name of its type.
    #[verifier::external_body]
    fn enter_node(&mut self, kind: AstKind<'a>) {
        let (start, end) = (kind.span().start as usize, kind.span().end as usize);
        let name = format!("{:?}", kind.ty());
        self.builder.open(name, node_text(kind), Vec::new(), false, start, end);
    }

    /// Closes the node that was opened last.
    #[verifier::external_body]
    fn leave_node(&mut self, _kind: AstKind<'a>) {
        self.builder.close();
    }

    /// Records a type alias, an interface or `export as namespace`, which
    /// `oxc_ast_visit` passes over, as a statement without parts, and walks any
    /// other statement.
    #[verifier::external_body]
    fn visit_statement(&mut self, it: &Statement<'a>) {
        let (start, end) = (it.span().start, it.span().end);
        match it {
            Statement::TSTypeAliasDeclaration(_) => {
                self.record_bare("TSTypeAliasDeclaration", start, end);
            }
            Statement::TSInterfaceDeclaration(_) => {
                self.record_bare("TSInterfaceDeclaration", start, end);
            }
            Statement::TSNamespaceExportDeclaration(_) => {
                self.record_bare("TSNamespaceExportDeclaration", start, end);
            }
            other => walk_statement(self, other),
        }
    }
}

/// An Oxc token under the name of its kind. Nothing is said of it.
#[verifier::external_body]
fn plain_token(token: &Token) -> SourceToken {
    SourceToken {
        kind: format!("{:?}", token.kind()),
        start: token.start() as usize,
        end: token.end() as usize,
    }
}

/// What `oxc_parser` makes of source, with TypeScript's grammar and with JSX's
/// where they are asked for: the tree as `VisitJs` walks it, with the statements
/// that are no more than types.
pub uninterp spec fn script_parse(
    source: Seq<char>,
    typescript: bool,
    markup: bool,
) -> ParsedScript;

/// `oxc_parser::Parser::parse` on source that may be a script or a module,
/// with regular expressions parsed and tokens kept: its diagnostics as texts,
/// its tree as `oxc_ast_visit::VisitJs` walks it, with the statements that are no
/// more than types, and its tokens. All of it depends on the source and the
/// grammar alone.
#[verifier::external_body]
fn parse(source: &str, typescript: bool, markup: bool) -> (parsed: ParsedScript)
    ensures
        parsed == script_parse(source@, typescript, markup),
{
    let allocator = Allocator::default();
    let options = ParseOptions { parse_regular_expression: true, ..ParseOptions::default() };
    let kind = SourceType::unambiguous().with_typescript(typescript).with_jsx(markup);
    let parser = Parser::new(&allocator, source, kind).with_config(TokensParserConfig);
    let parsed = parser.with_options(options).parse();
    let mut recorder = ScriptRecorder { builder: TreeBuilder::new() };
    recorder.visit_program(&parsed.program);
    ParsedScript {
        panicked: parsed.panicked,
        diagnostics: parsed.diagnostics.iter().map(ToString::to_string).collect(),
        tree: recorder.builder.finish(),
        tokens: parsed.tokens.iter().map(plain_token).collect(),
    }
}

/// The tokens that count among the first `count`.
pub open spec fn script_tokens(tokens: Seq<SourceToken>, count: nat) -> Seq<TokenRange>
    decreases count,
{
    if count == 0 {
        Seq::empty()
    } else {
        let earlier = script_tokens(tokens, (count - 1) as nat);
        if tokens[count - 1].kind@ == "Skip"@ || tokens[count - 1].kind@ == "Eof"@ {
            earlier
        } else {
            earlier.push(token_range(tokens[count - 1]))
        }
    }
}

fn list_tokens(tokens: &Vec<SourceToken>) -> (ranges: Vec<TokenRange>)
    ensures
        ranges@ == script_tokens(tokens@, tokens@.len()),
{
    let mut ranges: Vec<TokenRange> = Vec::new();
    let mut index: usize = 0;
    while index < tokens.len()
        invariant
            index <= tokens@.len(),
            ranges@ == script_tokens(tokens@, index as nat),
        decreases tokens@.len() - index,
    {
        let token = &tokens[index];
        if !same_text(token.kind.as_str(), "Skip") && !same_text(token.kind.as_str(), "Eof") {
            ranges.push(TokenRange { start: token.start, end: token.end });
        }
        index += 1;
    }
    ranges
}

/// Where a line ends, from a place on.
pub open spec fn line_comment_end(bytes: Seq<u8>, index: int) -> int
    decreases bytes.len() - index,
{
    if index >= bytes.len() || bytes[index] == 0x0A || bytes[index] == 0x0D {
        index
    } else {
        line_comment_end(bytes, index + 1)
    }
}

/// Where a block comment ends, from a place within it on: behind its mark, or
/// at the end of the source.
pub open spec fn block_comment_end(bytes: Seq<u8>, index: int) -> int
    decreases bytes.len() - index,
{
    if index + 1 >= bytes.len() {
        bytes.len() as int
    } else if bytes[index] == 0x2A && bytes[index + 1] == 0x2F {
        index + 2
    } else {
        block_comment_end(bytes, index + 1)
    }
}

/// Whether a comment with this second byte starts at a place.
pub open spec fn comment_opens(bytes: Seq<u8>, index: int, second: u8) -> bool {
    bytes[index] == 0x2F && index + 1 < bytes.len() && bytes[index + 1] == second
}

/// The comments from a place on, in a literal that ends with `quote` where one
/// is open.
pub open spec fn comments_from(bytes: Seq<u8>, index: int, quote: Option<u8>) -> Seq<TokenRange>
    decreases
            if index < bytes.len() {
                bytes.len() - index
            } else {
                0
            },
{
    if index < 0 || index >= bytes.len() {
        Seq::empty()
    } else {
        let byte = bytes[index];
        match quote {
            Some(mark) => if byte == 0x5C {
                comments_from(bytes, index + 2, quote)
            } else {
                comments_from(
                    bytes,
                    index + 1,
                    if byte == mark {
                        None
                    } else {
                        quote
                    },
                )
            },
            None => {
                let line_end = line_comment_end(bytes, index);
                let block_end = block_comment_end(bytes, index + 2);
                if byte == 0x27 || byte == 0x22 || byte == 0x60 {
                    comments_from(bytes, index + 1, Some(byte))
                } else if comment_opens(bytes, index, 0x2F) && line_end > index {
                    seq![
                        TokenRange { start: index as usize, end: line_end as usize },
                    ] + comments_from(bytes, line_end, None)
                } else if comment_opens(bytes, index, 0x2A) && block_end > index {
                    seq![
                        TokenRange { start: index as usize, end: block_end as usize },
                    ] + comments_from(bytes, block_end, None)
                } else {
                    comments_from(bytes, index + 1, None)
                }
            },
        }
    }
}

proof fn lemma_line_end_is_ahead(bytes: Seq<u8>, index: int)
    ensures
        line_comment_end(bytes, index) >= index,
    decreases bytes.len() - index,
{
    if !(index >= bytes.len() || bytes[index] == 0x0A || bytes[index] == 0x0D) {
        lemma_line_end_is_ahead(bytes, index + 1);
    }
}

fn find_line_end(bytes: &[u8], start: usize) -> (end: usize)
    requires
        start <= bytes@.len(),
    ensures
        end == line_comment_end(bytes@, start as int),
        start <= end <= bytes@.len(),
{
    let mut index: usize = start;
    while index < bytes.len() && bytes[index] != 0x0A && bytes[index] != 0x0D
        invariant
            start <= index <= bytes@.len(),
            line_comment_end(bytes@, start as int) == line_comment_end(bytes@, index as int),
        decreases bytes@.len() - index,
    {
        index += 1;
    }
    index
}

fn find_block_end(bytes: &[u8], start: usize) -> (end: usize)
    requires
        start <= bytes@.len(),
    ensures
        end == block_comment_end(bytes@, start as int),
        start <= end <= bytes@.len(),
{
    let mut index: usize = start;
    while index < bytes.len() && bytes.len() - index > 1
        invariant
            start <= index <= bytes@.len(),
            block_comment_end(bytes@, start as int) == block_comment_end(bytes@, index as int),
        decreases bytes@.len() - index,
    {
        if bytes[index] == 0x2A && bytes[index + 1] == 0x2F {
            return index + 2;
        }
        index += 1;
    }
    bytes.len()
}

/// The comments of source, outside of strings and templates.
fn list_comments(bytes: &[u8]) -> (comments: Vec<TokenRange>)
    ensures
        comments@ == comments_from(bytes@, 0, None),
{
    let mut comments: Vec<TokenRange> = Vec::new();
    let mut quote: Option<u8> = None;
    let mut index: usize = 0;
    assert(comments@ + comments_from(bytes@, 0, None) =~= comments_from(bytes@, 0, None));
    while index < bytes.len()
        invariant
            index <= bytes@.len(),
            comments@ + comments_from(bytes@, index as int, quote) == comments_from(
                bytes@,
                0,
                None,
            ),
        decreases bytes@.len() - index,
    {
        let byte: u8 = bytes[index];
        if let Some(mark) = quote {
            if byte == 0x5C {
                if bytes.len() - index >= 2 {
                    index += 2;
                } else {
                    assert(comments_from(bytes@, index + 2, quote) == comments_from(
                        bytes@,
                        index + 1,
                        quote,
                    ));
                    index += 1;
                }
            } else {
                if byte == mark {
                    quote = None;
                }
                index += 1;
            }
        } else if byte == 0x27 || byte == 0x22 || byte == 0x60 {
            quote = Some(byte);
            index += 1;
        } else if byte == 0x2F && bytes.len() - index >= 2 && bytes[index + 1] == 0x2F {
            let end: usize = find_line_end(bytes, index);
            let ghost held = comments@;
            proof {
                lemma_line_end_is_ahead(bytes@, index as int + 1);
            }
            assert(end > index);
            let range = TokenRange { start: index, end };
            comments.push(range);
            assert(comments@ + comments_from(bytes@, end as int, None) =~= held + (seq![range]
                + comments_from(bytes@, end as int, None)));
            index = end;
        } else if byte == 0x2F && bytes.len() - index >= 2 && bytes[index + 1] == 0x2A {
            let end: usize = find_block_end(bytes, index + 2);
            let ghost held = comments@;
            let range = TokenRange { start: index, end };
            comments.push(range);
            assert(comments@ + comments_from(bytes@, end as int, None) =~= held + (seq![range]
                + comments_from(bytes@, end as int, None)));
            index = end;
        } else {
            index += 1;
        }
    }
    assert(comments@ + Seq::<TokenRange>::empty() =~= comments@);
    comments
}

/// How many of the first `count` lines are code, how many comments.
pub open spec fn marked_tally(code: Seq<bool>, comments: Seq<bool>, count: nat) -> (nat, nat)
    decreases count,
{
    if count == 0 {
        (0, 0)
    } else {
        let earlier = marked_tally(code, comments, (count - 1) as nat);
        if code[count - 1] {
            (earlier.0 + 1, earlier.1)
        } else if comments[count - 1] {
            (earlier.0, earlier.1 + 1)
        } else {
            earlier
        }
    }
}

/// Whether counts are those of lines, each of them code, comment or blank.
pub open spec fn counts_marks(counts: LineCounts, code: Seq<bool>, comments: Seq<bool>) -> bool {
    let tally = marked_tally(code, comments, code.len());
    &&& counts.total == code.len()
    &&& counts.code == tally.0
    &&& counts.comments == tally.1
    &&& counts.code + counts.comments + counts.blank == counts.total
}

fn count_marks(code: &Vec<bool>, comments: &Vec<bool>) -> (counts: LineCounts)
    requires
        comments@.len() == code@.len(),
    ensures
        counts_marks(counts, code@, comments@),
{
    let mut code_count: usize = 0;
    let mut comment_count: usize = 0;
    let mut index: usize = 0;
    while index < code.len()
        invariant
            index <= code@.len(),
            comments@.len() == code@.len(),
            code_count + comment_count <= index,
            (code_count as nat, comment_count as nat) == marked_tally(
                code@,
                comments@,
                index as nat,
            ),
        decreases code@.len() - index,
    {
        if code[index] {
            code_count += 1;
        } else if comments[index] {
            comment_count += 1;
        }
        index += 1;
    }
    LineCounts {
        total: code.len(),
        code: code_count,
        comments: comment_count,
        blank: code.len() - code_count - comment_count,
    }
}

/// Why source that was parsed is refused, if it is.
pub open spec fn script_refusal(parsed: ParsedScript) -> Option<Seq<char>> {
    if parsed.panicked || parsed.diagnostics@.len() > 0 {
        Some(joined(texts(parsed.diagnostics@), "; "@))
    } else if parsed.tree is None {
        Some("JavaScript frontend produced no syntax tree"@)
    } else {
        None
    }
}

/// The source map of JavaScript or TypeScript source.
pub open spec fn script_map(source: Seq<char>, tokens: Seq<SourceToken>) -> SourceMapView {
    let lines = source_lines(encode_utf8(source), true);
    let counted = script_tokens(tokens, tokens.len());
    SourceMapView {
        source,
        language: Language::JavaScript,
        lines,
        code: touched_lines(lines, counted),
        tokens: counted,
        clamp_ends: false,
    }
}

/// Whether an analysis is that of parsed source.
pub open spec fn analyzes_script(
    analysis: FileAnalysis,
    source: Seq<char>,
    parsed: ParsedScript,
    category: Category,
) -> bool {
    let bytes = encode_utf8(source);
    let map = script_map(source, parsed.tokens@);
    let program = parsed.tree->Some_0;
    let length = bytes.len() as usize;
    &&& counts_marks(
        analysis.lines,
        map.code,
        touched_lines(map.lines, comments_from(bytes, 0, None)),
    )
    &&& analysis.tokens == map.tokens.len()
    &&& reports_all(
        analysis.functions@,
        program_units(program, length, map.lines, category),
        map,
    )
    &&& analysis.macro_opacity == (MacroOpacity {
        invocations: 0,
        source_tokens: 0,
        definitions: 0,
        definition_tokens: 0,
    })
    &&& met_evidence(
        analysis.evidence,
        map,
        met_in_program(analysis.functions@, map, program, length),
    )
}

/// Analyzes source that was parsed.
pub fn analyze_parsed(source: &str, parsed: &ParsedScript, category: Category) -> (result: Result<
    FileAnalysis,
    String,
>)
    ensures
        match (result, script_refusal(*parsed)) {
            (Ok(analysis), None) => analyzes_script(analysis, source@, *parsed, category),
            (Err(message), Some(expected)) => message@ == expected,
            _ => false,
        },
{
    if parsed.panicked || parsed.diagnostics.len() > 0 {
        return Err(join(&parsed.diagnostics, "; "));
    }
    let program = match &parsed.tree {
        Some(tree) => tree,
        None => {
            return Err("JavaScript frontend produced no syntax tree".to_owned());
        },
    };
    let bytes = source.as_bytes();
    let length: usize = bytes.len();
    let table = LineTable::new(source, true);
    let tokens = list_tokens(&parsed.tokens);
    let comment_ranges = list_comments(bytes);
    let code = mark_lines(&table, &tokens);
    let comments = mark_lines(&table, &comment_ranges);
    let lines = count_marks(&code, &comments);
    let units = collect_program(program, length, &table, category);
    let map = SourceMap {
        source,
        language: Language::JavaScript,
        table,
        code,
        tokens,
        clamp_ends: false,
    };
    let functions = map.make_reports(&units);
    let met = list_met(&functions, &map, program, length);
    let evidence = attach_met(&map, &met);
    Ok(
        FileAnalysis {
            lines,
            tokens: map.tokens.len(),
            functions,
            macro_opacity: MacroOpacity {
                invocations: 0,
                source_tokens: 0,
                definitions: 0,
                definition_tokens: 0,
            },
            evidence,
        },
    )
}

/// Whether a result is that of analyzing source in a mode.
pub open spec fn analyzes_in_mode(
    result: Result<FileAnalysis, String>,
    source: Seq<char>,
    mode: SourceMode,
    category: Category,
) -> bool {
    let parsed = script_parse(source, typed(mode), with_markup(mode));
    if byte_order_mark(source) {
        result matches Err(message) && message@ == mark_refusal()
    } else {
        match (result, script_refusal(parsed)) {
            (Ok(analysis), None) => analyzes_script(analysis, source, parsed, category),
            (Err(message), Some(expected)) => message@ == expected,
            _ => false,
        }
    }
}

/// Analyze source with an explicitly selected mode.
pub fn analyze_source(source: &str, mode: SourceMode, category: Category) -> (result: Result<
    FileAnalysis,
    String,
>)
    ensures
        analyzes_in_mode(result, source@, mode, category),
{
    if has_byte_order_mark(source) {
        return Err("UTF-8 BOM is not supported; remove the BOM before analysis".to_owned());
    }
    let (typescript, markup) = match mode {
        SourceMode::JavaScript => (false, false),
        SourceMode::JavaScriptJsx => (false, true),
        SourceMode::TypeScript => (true, false),
        SourceMode::TypeScriptJsx => (true, true),
    };
    let parsed = parse(source, typescript, markup);
    analyze_parsed(source, &parsed, category)
}

/// Whether a result is that of analyzing the source of a file.
pub open spec fn analyzes_at_path(
    result: Result<FileAnalysis, String>,
    path: Seq<char>,
    source: Seq<char>,
    category: Category,
) -> bool {
    match path_mode(path) {
        Some(mode) => analyzes_in_mode(result, source, mode, category),
        None => result matches Err(message) && message@ == mode_refusal(path),
    }
}

/// Analyze a source file after inferring its explicit mode from the path.
pub fn analyze_file(path: &str, source: &str, category: Category) -> (result: Result<
    FileAnalysis,
    String,
>)
    ensures
        analyzes_at_path(result, path@, source@, category),
{
    match SourceMode::from_path(path) {
        Ok(mode) => analyze_source(source, mode, category),
        Err(message) => Err(message),
    }
}

/// Convenience wrapper for callers without a path.
pub fn analyze(source: &str, mode: SourceMode, category: Category) -> (result: Result<
    FileAnalysis,
    String,
>)
    ensures
        analyzes_in_mode(result, source@, mode, category),
{
    analyze_source(source, mode, category)
}

}
