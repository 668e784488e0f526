//! The values the server hands to the editor: positions, ranges, edits,
//! completion items, hovers, locations, semantic tokens, symbols and
//! diagnostics, each holding as plain values what the editor protocol sends.
use vstd::prelude::*;

verus! {

/// A place in a document: a line index and a character offset on that line.
#[derive(Clone, Copy, Debug, PartialEq, Eq, Structural)]
pub struct Position {
    pub line: u32,
    pub character: u32,
}

/// The span from `start` up to `end`.
#[derive(Clone, Copy, Debug, PartialEq, Eq, Structural)]
pub struct Range {
    pub start: Position,
    pub end: Position,
}

/// The span from (`l1`, `c1`) up to (`l2`, `c2`).
pub open spec fn span(l1: u32, c1: u32, l2: u32, c2: u32) -> Range {
    Range { start: Position { line: l1, character: c1 }, end: Position { line: l2, character: c2 } }
}

pub fn make_range(l1: u32, c1: u32, l2: u32, c2: u32) -> (r: Range)
    ensures
        r == span(l1, c1, l2, c2),
{
    Range { start: Position { line: l1, character: c1 }, end: Position { line: l2, character: c2 } }
}

/// `new_text` replaces what `range` covers.
#[derive(Debug)]
pub struct TextEdit {
    pub range: Range,
    pub new_text: String,
}

/// A document (by its URI) and a span in it.
#[derive(Debug)]
pub struct Location {
    pub uri: String,
    pub range: Range,
}

/// Markdown shown when the pointer rests on a word.
#[derive(Debug)]
pub struct Hover {
    pub markdown: String,
}

/// The kinds of completion item the server offers.
#[derive(Clone, Copy, Debug, PartialEq, Eq, Structural)]
pub enum CompletionKind {
    Snippet,
    Keyword,
    Variable,
    Property,
    Function,
}

/// A completion item. `snippet` tells that `insert_text` is in snippet syntax.
#[derive(Debug)]
pub struct CompletionItem {
    pub label: String,
    pub kind: CompletionKind,
    pub detail: Option<String>,
    pub insert_text: Option<String>,
    pub snippet: bool,
}

/// A completion item with its texts as character sequences.
pub struct CompletionView {
    pub label: Seq<char>,
    pub kind: CompletionKind,
    pub detail: Option<Seq<char>>,
    pub insert_text: Option<Seq<char>>,
    pub snippet: bool,
}

/// The characters of an optional text.
pub open spec fn opt_view(s: Option<String>) -> Option<Seq<char>> {
    match s {
        Some(t) => Some(t@),
        None => None,
    }
}

impl View for CompletionItem {
    type V = CompletionView;

    open spec fn view(&self) -> CompletionView {
        CompletionView {
            label: self.label@,
            kind: self.kind,
            detail: opt_view(self.detail),
            insert_text: opt_view(self.insert_text),
            snippet: self.snippet,
        }
    }
}

/// The views of a list of completion items.
pub open spec fn completion_views(v: Seq<CompletionItem>) -> Seq<CompletionView> {
    v.map_values(|c: CompletionItem| c@)
}

/// One semantic token, positioned relative to the token before it.
#[derive(Clone, Copy, Debug, PartialEq, Eq, Structural)]
pub struct SemanticToken {
    pub delta_line: u32,
    pub delta_start: u32,
    pub length: u32,
    pub token_type: u32,
    pub token_modifiers_bitset: u32,
}

/// The kinds of document symbol the server reports.
#[derive(Clone, Copy, Debug, PartialEq, Eq, Structural)]
pub enum SymbolKind {
    Module,
    Namespace,
    Class,
    Method,
    Property,
    Field,
    Function,
    Variable,
    Str,
    Struct,
}

/// A symbol nested in a top-level symbol.
#[derive(Debug)]
pub struct ChildSymbol {
    pub name: String,
    pub detail: Option<String>,
    pub kind: SymbolKind,
}

/// A top-level symbol of a document, with its children where it has any.
#[derive(Debug)]
pub struct DocumentSymbol {
    pub name: String,
    pub detail: Option<String>,
    pub kind: SymbolKind,
    pub children: Option<Vec<ChildSymbol>>,
}

/// A nested symbol as character sequences.
pub struct ChildView {
    pub name: Seq<char>,
    pub detail: Option<Seq<char>>,
    pub kind: SymbolKind,
}

/// A top-level symbol as character sequences.
pub struct SymbolView {
    pub name: Seq<char>,
    pub detail: Option<Seq<char>>,
    pub kind: SymbolKind,
    pub children: Option<Seq<ChildView>>,
}

impl View for ChildSymbol {
    type V = ChildView;

    open spec fn view(&self) -> ChildView {
        ChildView { name: self.name@, detail: opt_view(self.detail), kind: self.kind }
    }
}

/// The views of a list of nested symbols.
pub open spec fn child_views(v: Seq<ChildSymbol>) -> Seq<ChildView> {
    v.map_values(|c: ChildSymbol| c@)
}

impl View for DocumentSymbol {
    type V = SymbolView;

    open spec fn view(&self) -> SymbolView {
        SymbolView {
            name: self.name@,
            detail: opt_view(self.detail),
            kind: self.kind,
            children: match self.children {
                Some(c) => Some(child_views(c@)),
                None => None,
            },
        }
    }
}

/// The views of a list of top-level symbols.
pub open spec fn symbol_views(v: Seq<DocumentSymbol>) -> Seq<SymbolView> {
    v.map_values(|c: DocumentSymbol| c@)
}

/// How bad a diagnostic is; every diagnostic of this server is an error.
#[derive(Clone, Copy, Debug, PartialEq, Eq, Structural)]
pub enum Severity {
    Error,
}

/// A problem reported in a document.
#[derive(Debug)]
pub struct Diagnostic {
    pub range: Range,
    pub severity: Severity,
    pub source: String,
    pub message: String,
}

} // verus!
