//! Rust source analysis backed by `syn` and `proc_macro2`.
//!
//! `syn`'s tree is lowered into a plain syntax tree at the frontend boundary,
//! without compiling or expanding the crate.
use vstd::prelude::*;
use vstd::utf8::encode_utf8;
use proc_macro2::extra::invalidate_current_thread_spans;
use proc_macro2::Span;
use syn::punctuated::Punctuated;
use syn::spanned::Spanned;
use syn::token::Comma;
use syn::visit;
use syn::visit::Visit;
use syn::{
    Arm, Attribute, Block, Expr, FnArg, ImplItem, Item, Lit, Macro, Meta, Pat, Path, Signature,
    Stmt, TraitItem, Type, UseTree, Visibility,
};
use crate::frontend_evidence::{attach_evidence, holds_evidence};
use crate::lines::{classify_lines, kind_count, line_kinds, LineAnalysis, LineKind};
use crate::model::{AnalysisError, Category, ErrorKind, FileAnalysis, Language, MacroOpacity};
use crate::python::{byte_order_mark, has_byte_order_mark};
use crate::rust_evidence::{file_holders, list_holders};
use crate::rust_syntax::{has_test_only_attribute, test_only};
use crate::rust_units::{collect_file, file_units};
use crate::spans::{
    count_tokens_in, cut, source_lines, text_between, tokens_within, LineTable, TokenRange,
};
use crate::sums::clipped;
use crate::syntax::{is_written, written, SyntaxNode, TreeBuilder};
use crate::text::{fits, is_fitting, length_refusal};
use crate::tokens::{counted_ranges, lex, listed_tokens, masked_text, LexedSource};
use crate::units::{node_range, reports_all, span_of, ByteRange, SourceMap, SourceMapView};

verus! {

/// An attribute of a `syn` tree.
#[verifier::external_type_specification]
#[verifier::external_body]
pub struct ExAttribute(syn::Attribute);

/// The content of an attribute of a `syn` tree.
#[verifier::external_type_specification]
#[verifier::external_body]
pub struct ExMeta(syn::Meta);

/// An item of a `syn` tree.
#[verifier::external_type_specification]
#[verifier::external_body]
pub struct ExItem(syn::Item);

/// An item of an `impl` block of a `syn` tree.
#[verifier::external_type_specification]
#[verifier::external_body]
pub struct ExImplItem(syn::ImplItem);

/// An item of a trait of a `syn` tree.
#[verifier::external_type_specification]
#[verifier::external_body]
pub struct ExTraitItem(syn::TraitItem);

/// A statement of a `syn` tree.
#[verifier::external_type_specification]
#[verifier::external_body]
pub struct ExRustStmt(syn::Stmt);

/// An expression of a `syn` tree.
#[verifier::external_type_specification]
#[verifier::external_body]
pub struct ExExpr(syn::Expr);

/// A pattern of a `syn` tree.
#[verifier::external_type_specification]
#[verifier::external_body]
pub struct ExPat(syn::Pat);

/// A type of a `syn` tree.
#[verifier::external_type_specification]
#[verifier::external_body]
pub struct ExType(syn::Type);

/// A block of a `syn` tree.
#[verifier::external_type_specification]
#[verifier::external_body]
pub struct ExBlock(syn::Block);

/// An arm of a match of a `syn` tree.
#[verifier::external_type_specification]
#[verifier::external_body]
pub struct ExArm(syn::Arm);

/// An input of a function of a `syn` tree.
#[verifier::external_type_specification]
#[verifier::external_body]
pub struct ExFnArg(syn::FnArg);

/// A signature of a function of a `syn` tree.
#[verifier::external_type_specification]
#[verifier::external_body]
pub struct ExSignature(syn::Signature);

/// A visibility of a `syn` tree.
#[verifier::external_type_specification]
#[verifier::external_body]
pub struct ExVisibility(syn::Visibility);

/// A macro invocation of a `syn` tree.
#[verifier::external_type_specification]
#[verifier::external_body]
pub struct ExMacro(syn::Macro);

/// A tree of a `use` declaration of a `syn` tree.
#[verifier::external_type_specification]
#[verifier::external_body]
pub struct ExUseTree(syn::UseTree);

/// A path of a `syn` tree.
#[verifier::external_type_specification]
#[verifier::external_body]
pub struct ExPath(syn::Path);

/// What the parser makes of Rust source.
#[derive(Debug)]
pub struct ParsedRust {
    /// The line that names an interpreter, which is not part of the tree.
    pub shebang: Option<String>,
    /// The tree of what stands behind that line.
    pub tree: Option<SyntaxNode>,
}

struct RustRecorder {
    builder: TreeBuilder,
}

/// What a node is recorded as.
struct Label {
    kind: &'static str,
    text: String,
    names: Vec<String>,
    flag: bool,
}

fn plain(kind: &'static str) -> (label: Label)
    ensures
        label.kind == kind,
        label.text@.len() == 0,
        label.names@.len() == 0,
        !label.flag,
{
    Label { kind, text: String::new(), names: Vec::new(), flag: false }
}

fn called(kind: &'static str, text: String, flag: bool) -> (label: Label)
    ensures
        label.kind == kind,
        label.text == text,
        label.names@.len() == 0,
        label.flag == flag,
{
    Label { kind, text, names: Vec::new(), flag }
}

fn routed(kind: &'static str, names: Vec<String>, flag: bool) -> (label: Label)
    ensures
        label.kind == kind,
        label.text@.len() == 0,
        label.names == names,
        label.flag == flag,
{
    Label { kind, text: String::new(), names, flag }
}

/// The names of a `syn::Path`, without what is between angle brackets. Nothing
/// is said of it.
#[verifier::external_body]
fn path_names(path: &Path) -> Vec<String> {
    path.segments.iter().map(|part| part.ident.to_string()).collect()
}

/// What a `syn::Item` is, and what it declares: of a module, whether its content
/// follows, of a macro, whether it has a name. Nothing is said of it.
#[verifier::external_body]
fn item_name(item: &Item) -> Label {
    match item {
        Item::Fn(node) => called("ItemFn", node.sig.ident.to_string(), false),
        Item::Const(node) => called("ItemConst", node.ident.to_string(), false),
        Item::Static(node) => called("ItemStatic", node.ident.to_string(), false),
        Item::Mod(node) => called("ItemMod", node.ident.to_string(), node.content.is_some()),
        Item::Impl(_) => plain("ItemImpl"),
        Item::Trait(node) => called("ItemTrait", node.ident.to_string(), false),
        Item::Macro(node) => called("ItemMacro", String::new(), node.ident.is_some()),
        _ => plain("Item"),
    }
}

/// What a `syn::ImplItem` is, and what it declares. Nothing is said of it.
#[verifier::external_body]
fn impl_item_name(item: &ImplItem) -> Label {
    match item {
        ImplItem::Fn(node) => called("ImplFn", node.sig.ident.to_string(), false),
        ImplItem::Const(node) => called("ImplConst", node.ident.to_string(), false),
        _ => plain("ImplItem"),
    }
}

/// What a `syn::TraitItem` is, and what it declares. Nothing is said of it.
#[verifier::external_body]
fn trait_item_name(item: &TraitItem) -> Label {
    match item {
        TraitItem::Fn(node) => called("TraitFn", node.sig.ident.to_string(), false),
        TraitItem::Const(node) => called("TraitConst", node.ident.to_string(), false),
        _ => plain("TraitItem"),
    }
}

/// What a `syn::Stmt` is. Nothing is said of it.
#[verifier::external_body]
fn statement_name(statement: &Stmt) -> &'static str {
    match statement {
        Stmt::Local(_) => "StmtLocal",
        Stmt::Item(_) => "StmtItem",
        Stmt::Expr(_, _) => "StmtExpr",
        Stmt::Macro(_) => "StmtMacro",
    }
}

/// What a `syn::Expr` is, where it needs no text. Nothing is said of it.
#[verifier::external_body]
fn control_name(expression: &Expr) -> Option<&'static str> {
    match expression {
        Expr::If(_) => Some("ExprIf"),
        Expr::Match(_) => Some("ExprMatch"),
        Expr::Loop(_) => Some("ExprLoop"),
        Expr::ForLoop(_) => Some("ExprForLoop"),
        Expr::While(_) => Some("ExprWhile"),
        Expr::Closure(_) => Some("ExprClosure"),
        Expr::Return(_) => Some("ExprReturn"),
        Expr::Unsafe(_) => Some("ExprUnsafe"),
        Expr::Block(_) => Some("ExprBlock"),
        Expr::Macro(_) => Some("ExprMacro"),
        Expr::Call(_) => Some("ExprCall"),
        Expr::Paren(_) => Some("ExprParen"),
        _ => None,
    }
}

/// What a `syn::Expr` is, where it is an operation: the operator, or whether a
/// reference is mutable. Nothing is said of it.
#[verifier::external_body]
fn operation_name(expression: &Expr) -> Option<Label> {
    match expression {
        Expr::Binary(node) => {
            let operator = node.op.span().source_text().into_iter().collect();
            Some(routed("ExprBinary", operator, false))
        }
        Expr::Unary(_) => Some(plain("ExprUnary")),
        Expr::Index(_) => Some(plain("ExprIndex")),
        Expr::Cast(_) => Some(plain("ExprCast")),
        Expr::Assign(_) => Some(plain("ExprAssign")),
        Expr::Reference(node) => {
            Some(called("ExprReference", String::new(), node.mutability.is_some()))
        }
        _ => None,
    }
}

/// What any other `syn::Expr` is, with its name or text, or the names of its path
/// and whether that starts from a type. Nothing is said of it.
#[verifier::external_body]
fn operand_name(expression: &Expr) -> Label {
    match expression {
        Expr::MethodCall(node) => called("ExprMethodCall", node.method.to_string(), false),
        Expr::Path(node) => routed("ExprPath", path_names(&node.path), node.qself.is_some()),
        Expr::Lit(node) => match &node.lit {
            Lit::Str(text) => called("ExprStr", text.value(), false),
            _ => plain("Expr"),
        },
        _ => plain("Expr"),
    }
}

/// What a `syn::Pat` is, what it binds, and whether it can be changed. Nothing is
/// said of it.
#[verifier::external_body]
fn pattern_name(pattern: &Pat) -> Label {
    match pattern {
        Pat::Ident(node) => called("PatIdent", node.ident.to_string(), node.mutability.is_some()),
        Pat::Macro(_) => plain("PatMacro"),
        _ => plain("Pat"),
    }
}

/// What a `syn::Type` is, and the names of its path. Nothing is said of it.
#[verifier::external_body]
fn named_type(node: &Type) -> Label {
    match node {
        Type::Path(node) => routed("TypePath", path_names(&node.path), false),
        Type::Reference(_) => plain("TypeReference"),
        Type::Tuple(_) => plain("TypeTuple"),
        _ => plain("Type"),
    }
}

/// What a `syn::FnArg` is, and whether a receiver is mutable. Nothing is said of
/// it.
#[verifier::external_body]
fn input_name(input: &FnArg) -> Label {
    match input {
        FnArg::Receiver(node) => called("Receiver", String::new(), node.mutability.is_some()),
        FnArg::Typed(_) => plain("Parameter"),
    }
}

impl RustRecorder {
    /// Opens a node over the bytes of a `proc_macro2::Span`. Nothing is said of
    /// it.
    #[verifier::external_body]
    fn open(&mut self, label: Label, span: Span) {
        let range = span.byte_range();
        let Label { kind, text, names, flag } = label;
        self.builder.open(kind.to_owned(), text, names, flag, range.start, range.end);
    }

    /// Records a `syn::Meta`, with those in its brackets where it is a list of
    /// them. Nothing is said of it.
    #[verifier::external_body]
    fn record_meta(&mut self, meta: &Meta) {
        let names = path_names(meta.path());
        match meta {
            Meta::Path(_) => self.open(routed("MetaPath", names, false), meta.span()),
            Meta::NameValue(_) => self.open(routed("MetaValue", names, false), meta.span()),
            Meta::List(list) => {
                self.open(routed("MetaList", names, false), meta.span());
                match list.parse_args_with(Punctuated::<Meta, Comma>::parse_terminated) {
                    Ok(parts) => parts.iter().for_each(|part| self.record_meta(part)),
                    Err(_) => self.record_unread(list.span()),
                }
            }
        }
        self.builder.close();
    }

    /// Records that something could not be read. Nothing is said of it.
    #[verifier::external_body]
    fn record_unread(&mut self, span: Span) {
        self.open(plain("Unread"), span);
        self.builder.close();
    }
}

impl<'ast> Visit<'ast> for RustRecorder {
    /// Records an attribute as `syn::visit` meets it.
    #[verifier::external_body]
    fn visit_attribute(&mut self, node: &'ast Attribute) {
        self.open(plain("Attribute"), node.span());
        visit::visit_attribute(self, node);
        self.builder.close();
    }

    /// Records the content of an attribute as `syn::visit` meets it.
    #[verifier::external_body]
    fn visit_meta(&mut self, node: &'ast Meta) {
        match node {
            Meta::NameValue(pair) => {
                self.open(routed("MetaValue", path_names(&pair.path), false), node.span());
                visit::visit_meta_name_value(self, pair);
                self.builder.close();
            }
            other => self.record_meta(other),
        }
    }

    /// Records an item as `syn::visit` meets it.
    #[verifier::external_body]
    fn visit_item(&mut self, node: &'ast Item) {
        self.open(item_name(node), node.span());
        visit::visit_item(self, node);
        self.builder.close();
    }

    /// Records an item of an `impl` block as `syn::visit` meets it.
    #[verifier::external_body]
    fn visit_impl_item(&mut self, node: &'ast ImplItem) {
        self.open(impl_item_name(node), node.span());
        visit::visit_impl_item(self, node);
        self.builder.close();
    }

    /// Records an item of a trait as `syn::visit` meets it.
    #[verifier::external_body]
    fn visit_trait_item(&mut self, node: &'ast TraitItem) {
        self.open(trait_item_name(node), node.span());
        visit::visit_trait_item(self, node);
        self.builder.close();
    }

    /// Records a visibility as `syn::visit` meets it, where it is written.
    #[verifier::external_body]
    fn visit_visibility(&mut self, node: &'ast Visibility) {
        match node {
            Visibility::Inherited => {}
            written => {
                self.open(plain("Visibility"), written.span());
                self.builder.close();
            }
        }
    }

    /// Records a signature as `syn::visit` meets it.
    #[verifier::external_body]
    fn visit_signature(&mut self, node: &'ast Signature) {
        self.open(plain("Signature"), node.span());
        visit::visit_signature(self, node);
        self.builder.close();
    }

    /// Records an input of a function as `syn::visit` meets it.
    #[verifier::external_body]
    fn visit_fn_arg(&mut self, node: &'ast FnArg) {
        self.open(input_name(node), node.span());
        visit::visit_fn_arg(self, node);
        self.builder.close();
    }

    /// Records a block as `syn::visit` meets it.
    #[verifier::external_body]
    fn visit_block(&mut self, node: &'ast Block) {
        self.open(plain("Block"), node.span());
        visit::visit_block(self, node);
        self.builder.close();
    }

    /// Records a statement as `syn::visit` meets it.
    #[verifier::external_body]
    fn visit_stmt(&mut self, node: &'ast Stmt) {
        self.open(plain(statement_name(node)), node.span());
        visit::visit_stmt(self, node);
        self.builder.close();
    }

    /// Records an arm of a match as `syn::visit` meets it.
    #[verifier::external_body]
    fn visit_arm(&mut self, node: &'ast Arm) {
        self.open(plain("Arm"), node.span());
        visit::visit_arm(self, node);
        self.builder.close();
    }

    /// Records an expression as `syn::visit` meets it.
    #[verifier::external_body]
    fn visit_expr(&mut self, node: &'ast Expr) {
        let control = control_name(node).map(plain);
        let found = control.or_else(|| operation_name(node));
        self.open(found.unwrap_or_else(|| operand_name(node)), node.span());
        visit::visit_expr(self, node);
        self.builder.close();
    }

    /// Records a pattern as `syn::visit` meets it.
    #[verifier::external_body]
    fn visit_pat(&mut self, node: &'ast Pat) {
        self.open(pattern_name(node), node.span());
        visit::visit_pat(self, node);
        self.builder.close();
    }

    /// Records a type as `syn::visit` meets it.
    #[verifier::external_body]
    fn visit_type(&mut self, node: &'ast Type) {
        self.open(named_type(node), node.span());
        visit::visit_type(self, node);
        self.builder.close();
    }

    /// Records a macro invocation as `syn::visit` meets it.
    #[verifier::external_body]
    fn visit_macro(&mut self, node: &'ast Macro) {
        self.open(routed("Macro", path_names(&node.path), false), node.span());
        visit::visit_macro(self, node);
        self.builder.close();
    }

    /// Records what a `use` declaration binds as `syn::visit` meets it.
    #[verifier::external_body]
    fn visit_use_tree(&mut self, node: &'ast UseTree) {
        match node {
            UseTree::Name(name) => {
                self.open(called("UseName", name.ident.to_string(), false), node.span());
            }
            UseTree::Rename(name) => {
                self.open(called("UseRename", name.rename.to_string(), false), node.span());
            }
            _ => self.open(plain("UseTree"), node.span()),
        }
        visit::visit_use_tree(self, node);
        self.builder.close();
    }
}

/// What `syn::parse_file` makes of source, with the tree as `syn::visit` walks
/// it, or why it refuses the source.
pub uninterp spec fn rust_parse(source: Seq<char>) -> Result<ParsedRust, Seq<char>>;

/// How many bytes of source leave room in the 32-bit spans of `proc_macro2` for
/// what `syn` hands back to it while it parses: the numerals of chained tuple
/// indexes and of negative literals, each a piece of the source with a gap of one,
/// and each read a few times at most. A sixteenth of all positions is ample.
pub const PARSE_LIMIT: u32 = 0x0FFF_FFFF;

/// `syn::parse_file`: the tree of what stands behind a byte-order mark and a
/// line that names an interpreter, with offsets counted from there, or the text
/// of the error. All of it depends on the source alone: the texts that
/// `proc_macro2` keeps for the spans of a thread are dropped before and after.
#[verifier::external_body]
fn parse(source: &str) -> (result: Result<ParsedRust, String>)
    requires
        fits(source@, PARSE_LIMIT),
    ensures
        match (result, rust_parse(source@)) {
            (Ok(parsed), Ok(expected)) => parsed == expected,
            (Err(message), Err(expected)) => message@ == expected,
            _ => false,
        },
{
    invalidate_current_thread_spans();
    let result = match syn::parse_file(source) {
        Ok(file) => {
            let mut recorder = RustRecorder { builder: TreeBuilder::new() };
            recorder.open(plain("File"), file.span());
            recorder.visit_file(&file);
            Ok(ParsedRust { shebang: file.shebang, tree: recorder.builder.finish() })
        }
        Err(error) => Err(error.to_string()),
    };
    invalidate_current_thread_spans();
    result
}

/// What the parser makes of Rust source, or why it has no tree.
pub open spec fn parsed_rust(source: Seq<char>) -> Result<ParsedRust, Seq<char>> {
    if fits(source, PARSE_LIMIT) {
        rust_parse(source)
    } else {
        Err(length_refusal())
    }
}

/// What `proc_macro2` and `syn` skip at the start of source: a byte-order mark
/// and a line that names an interpreter.
pub open spec fn skipped(source: Seq<char>, parsed: ParsedRust) -> usize {
    let mark: nat = if byte_order_mark(source) {
        3
    } else {
        0
    };
    match parsed.shebang {
        Some(line) => clipped(mark + encode_utf8(line@).len()),
        None => mark as usize,
    }
}

/// The source that the tree covers.
pub open spec fn covered(source: Seq<char>, parsed: ParsedRust) -> Seq<char> {
    text_between(source, skipped(source, parsed) as int, encode_utf8(source).len() as int)
}

/// The tokens from an offset on, counted from there.
pub open spec fn tokens_from(ranges: Seq<TokenRange>, offset: nat, count: nat) -> Seq<TokenRange>
    decreases count,
{
    if count == 0 {
        Seq::empty()
    } else {
        let earlier = tokens_from(ranges, offset, (count - 1) as nat);
        let range = ranges[count - 1];
        if range.start >= offset && range.end >= offset {
            earlier.push(
                TokenRange {
                    start: (range.start - offset) as usize,
                    end: (range.end - offset) as usize,
                },
            )
        } else {
            earlier
        }
    }
}

/// Which lines hold code.
pub open spec fn code_marks(kinds: Seq<LineKind>) -> Seq<bool> {
    kinds.map_values(|kind: LineKind| kind == LineKind::Code)
}

/// The source map of Rust source.
pub open spec fn rust_map(
    source: Seq<char>,
    parsed: ParsedRust,
    ranges: Seq<TokenRange>,
) -> SourceMapView {
    let text = covered(source, parsed);
    SourceMapView {
        source: text,
        language: Language::Rust,
        lines: source_lines(encode_utf8(text), false),
        code: code_marks(line_kinds(encode_utf8(source))),
        tokens: tokens_from(ranges, skipped(source, parsed) as nat, ranges.len()),
        clamp_ends: false,
    }
}

/// Whether a macro invocation is that of a macro that defines macros.
pub open spec fn defining_macro(name: Seq<char>) -> bool {
    name == "macro_rules"@ || name == "macro_rules_attribute"@
}

/// Whether a node defines a macro: an item that is a macro invocation and gives
/// it a name.
pub open spec fn macro_definition(node: SyntaxNode) -> bool {
    node.named("ItemMacro"@) && node.flag
}

/// Whether a node declares a module that another file holds.
pub open spec fn outside_module(node: SyntaxNode) -> bool {
    node.named("ItemMod"@) && !node.flag
}

/// Whether a node is a module with its content.
pub open spec fn inline_module(node: SyntaxNode) -> bool {
    node.named("ItemMod"@) && node.flag
}

/// What the macro definitions of a tree span, or the macro invocations. The
/// rules of a definition are tokens, not parsed Rust.
pub open spec fn macro_sites(node: SyntaxNode, definitions: bool) -> Seq<ByteRange>
    decreases node, node.children@.len() + 1,
{
    let counted = if definitions {
        macro_definition(node)
    } else {
        node.named("Macro"@) && !defining_macro(written(node.names@))
    };
    let own: Seq<ByteRange> = if counted {
        seq![node_range(node)]
    } else {
        Seq::empty()
    };
    own + part_macro_sites(node, definitions, node.children@.len())
}

/// What the macros of the first `count` parts of a node span.
pub open spec fn part_macro_sites(node: SyntaxNode, definitions: bool, count: nat) -> Seq<ByteRange>
    decreases node, count,
{
    if count == 0 || count > node.children@.len() {
        Seq::empty()
    } else {
        let earlier = part_macro_sites(node, definitions, (count - 1) as nat);
        let part = node.children@[count - 1];
        if macro_definition(node) && !part.named("Attribute"@) {
            earlier
        } else {
            earlier + macro_sites(part, definitions)
        }
    }
}

/// How many tokens the first `count` sites hold, added up.
pub open spec fn site_tokens(tokens: Seq<TokenRange>, sites: Seq<ByteRange>, count: nat) -> nat
    decreases count,
{
    if count == 0 {
        0
    } else {
        site_tokens(tokens, sites, (count - 1) as nat) + tokens_within(
            tokens,
            sites[count - 1].start as int,
            sites[count - 1].end as int,
            tokens.len(),
        )
    }
}

/// Whether counts are those of the macros of a tree.
pub open spec fn counts_macros(
    opacity: MacroOpacity,
    tree: SyntaxNode,
    tokens: Seq<TokenRange>,
) -> bool {
    let invocations = macro_sites(tree, false);
    let definitions = macro_sites(tree, true);
    &&& opacity.invocations == invocations.len()
    &&& opacity.source_tokens == clipped(site_tokens(tokens, invocations, invocations.len()))
    &&& opacity.definitions == definitions.len()
    &&& opacity.definition_tokens == clipped(
        site_tokens(tokens, definitions, definitions.len()),
    )
}

fn collect_macro_sites(node: &SyntaxNode, definitions: bool, list: &mut Vec<ByteRange>)
    ensures
        final(list)@ == old(list)@ + macro_sites(*node, definitions),
    decreases node,
{
    let ghost held = list@;
    let definition: bool = (node.is("ItemMacro") && node.flag);
    let counted: bool = if definitions {
        definition
    } else {
        node.is("Macro") && !is_written(&node.names, "macro_rules") && !is_written(
            &node.names,
            "macro_rules_attribute",
        )
    };
    if counted {
        list.push(span_of(node));
    }
    let ghost own = list@;
    let parts = &node.children;
    let mut index: usize = 0;
    assert(list@ =~= own + part_macro_sites(*node, definitions, 0));
    while index < parts.len()
        invariant
            index <= parts@.len(),
            parts@ == node.children@,
            definition == macro_definition(*node),
            list@ == own + part_macro_sites(*node, definitions, index as nat),
        decreases parts@.len() - index,
    {
        if !definition || parts[index].is("Attribute") {
            collect_macro_sites(&parts[index], definitions, list);
        }
        index += 1;
        assert(list@ =~= own + part_macro_sites(*node, definitions, index as nat));
    }
    assert(list@ =~= held + macro_sites(*node, definitions));
}

fn count_site_tokens(tokens: &Vec<TokenRange>, sites: &Vec<ByteRange>) -> (number: usize)
    ensures
        number == clipped(site_tokens(tokens@, sites@, sites@.len())),
{
    let mut number: usize = 0;
    let mut index: usize = 0;
    while index < sites.len()
        invariant
            index <= sites@.len(),
            number == clipped(site_tokens(tokens@, sites@, index as nat)),
        decreases sites@.len() - index,
    {
        number = number.saturating_add(
            count_tokens_in(tokens, sites[index].start, sites[index].end),
        );
        index += 1;
    }
    number
}

/// Counts the macros of a tree and the tokens that they hide.
pub fn measure_macro_opacity(tree: &SyntaxNode, tokens: &Vec<TokenRange>) -> (opacity: MacroOpacity)
    ensures
        counts_macros(opacity, *tree, tokens@),
{
    let mut invocations: Vec<ByteRange> = Vec::new();
    let mut definitions: Vec<ByteRange> = Vec::new();
    collect_macro_sites(tree, false, &mut invocations);
    collect_macro_sites(tree, true, &mut definitions);
    assert(invocations@ =~= macro_sites(*tree, false));
    assert(definitions@ =~= macro_sites(*tree, true));
    MacroOpacity {
        invocations: invocations.len(),
        source_tokens: count_site_tokens(tokens, &invocations),
        definitions: definitions.len(),
        definition_tokens: count_site_tokens(tokens, &definitions),
    }
}

/// A module that another file holds.
#[derive(Debug)]
pub struct ModuleDeclaration {
    pub name: String,
    /// Where its file is, from a `path` attribute.
    pub path: Option<String>,
    pub test_only: bool,
}

/// The plain content of a module declaration.
pub struct ModuleDeclarationView {
    pub name: Seq<char>,
    pub path: Option<Seq<char>>,
    pub test_only: bool,
}

impl View for ModuleDeclaration {
    type V = ModuleDeclarationView;

    open spec fn view(&self) -> ModuleDeclarationView {
        ModuleDeclarationView {
            name: self.name@,
            path: match self.path {
                Some(path) => Some(path@),
                None => None,
            },
            test_only: self.test_only,
        }
    }
}

/// The plain contents of module declarations.
pub open spec fn declaration_views(list: Seq<ModuleDeclaration>) -> Seq<ModuleDeclarationView> {
    list.map_values(|declaration: ModuleDeclaration| declaration@)
}

/// The path that an attribute gives to the file of a module.
pub open spec fn attribute_path(attribute: SyntaxNode) -> Option<Seq<char>> {
    if attribute.named("Attribute"@) && attribute.children@.len() > 0 {
        let meta = attribute.children@[0];
        if meta.named("MetaValue"@) && written(meta.names@) == "path"@ && meta.children@.len() > 0
            && meta.children@[0].named("ExprStr"@) {
            Some(meta.children@[0].text@)
        } else {
            None
        }
    } else {
        None
    }
}

/// The path that the first attribute from `start` on that gives one gives.
pub open spec fn given_path(parts: Seq<SyntaxNode>, start: int) -> Option<Seq<char>>
    decreases parts.len() - start,
{
    if start < 0 || start >= parts.len() {
        None
    } else {
        match attribute_path(parts[start]) {
            Some(path) => Some(path),
            None => given_path(parts, start + 1),
        }
    }
}

/// The modules that other files hold, as a tree declares them.
pub open spec fn declarations(node: SyntaxNode, in_test: bool) -> Seq<ModuleDeclarationView>
    decreases node, node.children@.len() + 1,
{
    if outside_module(node) {
        seq![
            ModuleDeclarationView {
                name: node.text@,
                path: given_path(node.children@, 0),
                test_only: in_test || test_only(node),
            },
        ]
    } else {
        part_declarations(
            node,
            in_test || (inline_module(node) && test_only(node)),
            node.children@.len(),
        )
    }
}

/// The modules that other files hold, as the first `count` parts declare them.
pub open spec fn part_declarations(node: SyntaxNode, in_test: bool, count: nat) -> Seq<
    ModuleDeclarationView,
>
    decreases node, count,
{
    if count == 0 || count > node.children@.len() {
        Seq::empty()
    } else {
        let earlier = part_declarations(node, in_test, (count - 1) as nat);
        let part = node.children@[count - 1];
        if inline_module(node) && part.named("Attribute"@) {
            earlier
        } else {
            earlier + declarations(part, in_test)
        }
    }
}

fn find_given_path(parts: &Vec<SyntaxNode>) -> (path: Option<String>)
    ensures
        match (path, given_path(parts@, 0)) {
            (Some(found), Some(expected)) => found@ == expected,
            (None, None) => true,
            _ => false,
        },
{
    let mut index: usize = 0;
    while index < parts.len()
        invariant
            index <= parts@.len(),
            given_path(parts@, 0) == given_path(parts@, index as int),
        decreases parts@.len() - index,
    {
        let attribute = &parts[index];
        if attribute.is("Attribute") && attribute.children.len() > 0 {
            let meta = &attribute.children[0];
            if meta.is("MetaValue") && is_written(&meta.names, "path")
                && meta.children.len() > 0 && meta.children[0].is("ExprStr") {
                return Some(meta.children[0].text.clone());
            }
        }
        index += 1;
    }
    None
}

fn collect_declarations(node: &SyntaxNode, in_test: bool, list: &mut Vec<ModuleDeclaration>)
    ensures
        declaration_views(final(list)@) == declaration_views(old(list)@) + declarations(
            *node,
            in_test,
        ),
    decreases node,
{
    let ghost held = declaration_views(list@);
    let parts = &node.children;
    if node.is("ItemMod") && !node.flag {
        let declaration = ModuleDeclaration {
            name: node.text.clone(),
            path: find_given_path(parts),
            test_only: in_test || has_test_only_attribute(node),
        };
        let ghost added = declaration@;
        list.push(declaration);
        assert(declaration_views(list@) =~= held.push(added));
        assert(declaration_views(list@) =~= held + declarations(*node, in_test));
        return ;
    }
    let module: bool = node.is("ItemMod") && node.flag;
    let inner: bool = in_test || (module && has_test_only_attribute(node));
    let mut index: usize = 0;
    assert(declaration_views(list@) =~= held + part_declarations(*node, inner, 0));
    while index < parts.len()
        invariant
            index <= parts@.len(),
            parts@ == node.children@,
            module == inline_module(*node),
            declaration_views(list@) == held + part_declarations(*node, inner, index as nat),
        decreases parts@.len() - index,
    {
        if !(module && parts[index].is("Attribute")) {
            collect_declarations(&parts[index], inner, list);
        }
        index += 1;
        assert(declaration_views(list@) =~= held + part_declarations(
            *node,
            inner,
            index as nat,
        ));
    }
}

/// Lists the modules that other files hold, as a tree declares them.
pub fn list_declarations(tree: &SyntaxNode) -> (list: Vec<ModuleDeclaration>)
    ensures
        declaration_views(list@) == declarations(*tree, false),
{
    let mut list: Vec<ModuleDeclaration> = Vec::new();
    assert(declaration_views(list@) =~= Seq::<ModuleDeclarationView>::empty());
    collect_declarations(tree, false, &mut list);
    assert(declaration_views(list@) =~= declarations(*tree, false));
    list
}

/// The module declarations of source; none where it does not parse.
pub open spec fn source_declarations(parsed: Result<ParsedRust, Seq<char>>) -> Seq<
    ModuleDeclarationView,
> {
    match parsed {
        Ok(file) => match file.tree {
            Some(tree) => declarations(tree, false),
            None => Seq::empty(),
        },
        Err(_) => Seq::empty(),
    }
}

/// Lists the modules that other files hold, as source declares them.
pub fn declared_modules(source: &str) -> (list: Vec<ModuleDeclaration>)
    ensures
        declaration_views(list@) == source_declarations(parsed_rust(source@)),
{
    let none: Vec<ModuleDeclaration> = Vec::new();
    assert(declaration_views(none@) =~= Seq::<ModuleDeclarationView>::empty());
    match syntax_tree(source) {
        Ok(parsed) => match parsed.tree {
            Some(tree) => list_declarations(&tree),
            None => none,
        },
        Err(_) => none,
    }
}

/// The syntax tree of Rust source, or why it has none.
pub fn syntax_tree(source: &str) -> (result: Result<ParsedRust, String>)
    ensures
        match (result, parsed_rust(source@)) {
            (Ok(parsed), Ok(expected)) => parsed == expected,
            (Err(message), Err(expected)) => message@ == expected,
            _ => false,
        },
{
    if !is_fitting(source, PARSE_LIMIT) {
        return Err("source is too long to analyze".to_owned());
    }
    parse(source)
}

fn count_skipped(source: &str, parsed: &ParsedRust) -> (number: usize)
    ensures
        number == skipped(source@, *parsed),
{
    let mark: usize = if has_byte_order_mark(source) {
        3
    } else {
        0
    };
    match &parsed.shebang {
        Some(line) => mark.saturating_add(line.as_str().as_bytes().len()),
        None => mark,
    }
}

fn list_tokens_from(ranges: &Vec<TokenRange>, offset: usize) -> (list: Vec<TokenRange>)
    ensures
        list@ == tokens_from(ranges@, offset as nat, ranges@.len()),
{
    let mut list: Vec<TokenRange> = Vec::new();
    let mut index: usize = 0;
    while index < ranges.len()
        invariant
            index <= ranges@.len(),
            list@ == tokens_from(ranges@, offset as nat, index as nat),
        decreases ranges@.len() - index,
    {
        let range = ranges[index];
        if range.start >= offset && range.end >= offset {
            list.push(TokenRange { start: range.start - offset, end: range.end - offset });
        }
        index += 1;
    }
    list
}

fn mark_code(analysis: &LineAnalysis, Ghost(kinds): Ghost<Seq<LineKind>>) -> (marks: Vec<bool>)
    requires
        analysis.describes(kinds),
    ensures
        marks@ == code_marks(kinds),
{
    let prefix = &analysis.code_prefix;
    let count: usize = prefix.len() - 1;
    let mut marks: Vec<bool> = Vec::new();
    while marks.len() < count
        invariant
            marks@.len() <= count,
            count + 1 == prefix@.len(),
            prefix@ == analysis.code_prefix@,
            analysis.describes(kinds),
            marks@ =~= code_marks(kinds).take(marks@.len() as int),
        decreases count - marks@.len(),
    {
        let line: usize = marks.len();
        assert(prefix@[line as int] == kind_count(
            kinds,
            LineKind::Code,
            line as nat,
        ));
        assert(prefix@[line + 1] == kind_count(
            kinds,
            LineKind::Code,
            (line + 1) as nat,
        ));
        marks.push(prefix[line + 1] > prefix[line]);
    }
    assert(marks@ =~= code_marks(kinds));
    marks
}

/// Whether an analysis is that of Rust source that was parsed and lexed.
pub open spec fn analyzes_rust(
    analysis: FileAnalysis,
    source: Seq<char>,
    parsed: ParsedRust,
    ranges: Seq<TokenRange>,
    category: Category,
) -> bool {
    let map = rust_map(source, parsed, ranges);
    let tree = parsed.tree->Some_0;
    let kinds = line_kinds(encode_utf8(source));
    &&& analysis.lines.total == kinds.len()
    &&& analysis.lines.code == kind_count(kinds, LineKind::Code, kinds.len())
    &&& analysis.lines.comments == kind_count(kinds, LineKind::Comment, kinds.len())
    &&& analysis.lines.blank == kind_count(kinds, LineKind::Blank, kinds.len())
    &&& analysis.tokens == ranges.len()
    &&& reports_all(analysis.functions@, file_units(tree, map.lines, category), map)
    &&& counts_macros(analysis.macro_opacity, tree, map.tokens)
    &&& holds_evidence(
        analysis.evidence,
        map,
        analysis.functions@,
        file_holders(tree, map.lines, category),
    )
}

/// Analyzes Rust source that was parsed and lexed.
pub fn analyze_parsed(
    source: &str,
    parsed: &ParsedRust,
    lexed: &LexedSource,
    category: Category,
) -> (result: Option<FileAnalysis>)
    ensures
        result is Some <==> parsed.tree is Some,
        result matches Some(analysis) ==> analyzes_rust(
            analysis,
            source@,
            *parsed,
            lexed.ranges@,
            category,
        ),
{
    let tree = match &parsed.tree {
        Some(tree) => tree,
        None => {
            return None;
        },
    };
    let length: usize = source.as_bytes().len();
    let offset: usize = count_skipped(source, parsed);
    let classified = classify_lines(source);
    let code = mark_code(&classified, Ghost(line_kinds(encode_utf8(source@))));
    let text = match cut(source, offset, length) {
        Some(text) => text,
        None => "",
    };
    proof {
        reveal_strlit("");
        assert(""@ =~= Seq::<char>::empty());
        assert(text@ == covered(source@, *parsed));
    }
    let table = LineTable::new(text, false);
    let tokens = list_tokens_from(&lexed.ranges, offset);
    let units = collect_file(tree, &table, category);
    let holders = list_holders(tree, &table, category);
    let macro_opacity = measure_macro_opacity(tree, &tokens);
    let map = SourceMap {
        source: text,
        language: Language::Rust,
        table,
        code,
        tokens,
        clamp_ends: false,
    };
    let functions = map.make_reports(&units);
    let evidence = attach_evidence(&map, &functions, &holders);
    Some(
        FileAnalysis {
            lines: classified.counts,
            tokens: lexed.ranges.len(),
            functions,
            macro_opacity,
            evidence,
        },
    )
}

/// Whether an error has a kind and a message, and names no file.
pub open spec fn fails_with(error: AnalysisError, kind: ErrorKind, message: Seq<char>) -> bool {
    error.path is None && error.kind == kind && error.message@ == message
}

/// Whether a result is that of analyzing Rust source. Source that does not
/// parse is refused before source that does not lex.
pub open spec fn analyzes_source(
    result: Result<FileAnalysis, AnalysisError>,
    source: Seq<char>,
    category: Category,
) -> bool {
    match parsed_rust(source) {
        Err(message) => result matches Err(error) && fails_with(error, ErrorKind::Parse, message),
        Ok(parsed) => match listed_tokens(masked_text(source)) {
            Err(message) => result matches Err(error) && fails_with(error, ErrorKind::Lex, message),
            Ok(events) => if parsed.tree is None {
                result matches Err(error) && fails_with(
                    error,
                    ErrorKind::Parse,
                    "Rust frontend produced no syntax tree"@,
                )
            } else {
                result matches Ok(analysis) && analyzes_rust(
                    analysis,
                    source,
                    parsed,
                    counted_ranges(events, events.len()),
                    category,
                )
            },
        },
    }
}

/// Analyzes Rust source. All of a test file is test code.
pub fn analyze(source: &str, category: Category) -> (result: Result<FileAnalysis, AnalysisError>)
    ensures
        analyzes_source(result, source@, category),
{
    let parsed = match syntax_tree(source) {
        Ok(parsed) => parsed,
        Err(message) => {
            return Err(AnalysisError { path: None, kind: ErrorKind::Parse, message });
        },
    };
    let lexed = match lex(source) {
        Ok(lexed) => lexed,
        Err(message) => {
            return Err(AnalysisError { path: None, kind: ErrorKind::Lex, message });
        },
    };
    match analyze_parsed(source, &parsed, &lexed, category) {
        Some(analysis) => Ok(analysis),
        None => Err(
            AnalysisError {
                path: None,
                kind: ErrorKind::Parse,
                message: "Rust frontend produced no syntax tree".to_owned(),
            },
        ),
    }
}

}
