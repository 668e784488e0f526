//! Open documents: the text and version the editor sent, what the parser
//! and the compiler make of it, and the store of open documents by URI.
use vstd::prelude::*;
use crate::outline::{
    ActionInfo, FieldInfo, MemoInfo, Outline, ParamInfo, ParseIssue, PropInfo, ResourceOutline,
    RouteOutline, ScriptOutline, StateInfo, StyleOutline,
};
use crate::protocol::{span, Diagnostic, Range, Severity};
use crate::safety::{parse_safe, parse_safe_exec};
use crate::text::{chars_of, u32_of};

verus! {

// ---------------------------------------------------------------------------
// The parser and the compiler
// ---------------------------------------------------------------------------

#[verifier::external_type_specification]
#[verifier::external_body]
pub struct ExAdaptoFile(adapto_parser::AdaptoFile);

#[verifier::external_type_specification]
#[verifier::external_body]
pub struct ExScriptBlock(adapto_parser::ScriptBlock);

#[verifier::external_type_specification]
#[verifier::external_body]
pub struct ExParsedAction(adapto_parser::ActionDecl);

#[verifier::external_type_specification]
#[verifier::external_body]
pub struct ExParseError(adapto_parser::ParseError);

#[verifier::external_type_specification]
#[verifier::external_body]
pub struct ExCompileOutput(adapto_compiler::compiler::CompileOutput);

/// What the server reports, in place of a parse, for a text that it does
/// not hand to the parser (one that fails `parse_safe`).
pub const NOT_PARSED: &'static str = "The document was not parsed: it holds a non-ASCII character, a lone quote as a value, a `)` before the `(` of a declaration line, or template markup that is not well nested.";

/// What `adapto_parser::parse` makes of a text: the outline of the file it
/// builds, or the error it reports.
pub uninterp spec fn parsed_outline(text: Seq<char>) -> Result<Outline, ParseIssue>;

/// What `Compiler::compile_file` reports for the file parsed from a text
/// (compiled as `"<editor>"` by a fresh compiler): `None` when it compiles,
/// else the text of the error (its `Display`).
pub uninterp spec fn compile_failure(text: Seq<char>) -> Option<Seq<char>>;

/// Copies an action declaration of the parser's tree, field by field (part of
/// the conversion that `parse_text` makes).
#[verifier::external_body]
fn action_of(a: &adapto_parser::ActionDecl) -> ActionInfo {
    ActionInfo {
        name: a.name.clone(),
        params: a.params.iter().map(|p| ParamInfo { name: p.name.clone(), ty: p.ty.clone() }).collect(),
        permission: a.permission.clone(),
        is_async: a.is_async,
    }
}

/// Copies the state declarations of a script block of the parser's tree,
/// field by field (part of the conversion that `parse_text` makes).
#[verifier::external_body]
fn states_of(s: &adapto_parser::ScriptBlock) -> Vec<StateInfo> {
    s.states.iter().map(|d| StateInfo {
        name: d.name.clone(),
        ty: d.ty.clone(),
        default: d.default.clone(),
        secret: d.secret,
    }).collect()
}

/// Copies the memo declarations of a script block of the parser's tree,
/// field by field (part of the conversion that `parse_text` makes).
#[verifier::external_body]
fn memos_of(s: &adapto_parser::ScriptBlock) -> Vec<MemoInfo> {
    s.memos.iter().map(|d| MemoInfo { name: d.name.clone(), ty: d.ty.clone(), expr: d.expr.clone() }).collect()
}

/// Copies the declarations of a script block of the parser's tree, field by
/// field (part of the conversion that `parse_text` makes).
#[verifier::external_body]
fn script_of(s: &adapto_parser::ScriptBlock) -> ScriptOutline {
    ScriptOutline {
        states: states_of(s),
        props: s.props.iter().map(|d| PropInfo { name: d.name.clone(), ty: d.ty.clone() }).collect(),
        memos: memos_of(s),
        loaders: s.loaders.iter().map(|d| d.name.clone()).collect(),
        actions: s.actions.iter().map(action_of).collect(),
        server_fns: s.server_fns.iter().map(|d| d.name.clone()).collect(),
        forms: s.forms.iter().map(|d| d.name.clone()).collect(),
    }
}

/// Copies the blocks of the parser's tree that the server reads, field by
/// field (the conversion that `parse_text` makes).
#[verifier::external_body]
fn outline_of(f: &adapto_parser::AdaptoFile) -> Outline {
    Outline {
        route: f.route.as_ref().map(|r| RouteOutline { path: r.path.clone(), method: r.method.clone() }),
        script: f.script.as_ref().map(script_of),
        has_template: f.template.is_some(),
        style: f.style.as_ref().map(|s| StyleOutline { scoped: s.scoped }),
        resource: f.resource.as_ref().map(|r| ResourceOutline {
            name: r.name.clone(),
            table: r.table.clone(),
            fields: r.fields.iter().map(|x| FieldInfo { name: x.name.clone(), ty: x.ty.clone() }).collect(),
        }),
    }
}

/// Copies a parse error: a syntax error with its position and message, or
/// another kind with its message (the error's `Display`), part of the
/// conversion that `parse_text` makes.
#[verifier::external_body]
fn issue_of(e: &adapto_parser::ParseError) -> ParseIssue {
    match e {
        adapto_parser::ParseError::Syntax { line, col, message } => ParseIssue::Syntax { line: *line, col: *col, message: message.clone() },
        _ => ParseIssue::Other { message: e.to_string() },
    }
}

/// Calls `adapto_parser::parse` on the text and copies out the outline of
/// the tree it builds, or its error. Claimed: the result is
/// `parsed_outline(text)`, a function of the text alone (the parser reads
/// nothing else). Not claimed: which outline a given text has. The parser
/// slices its input byte by byte and walks template markup in ways that
/// panic or do not end on some malformed texts (a multi-byte character in a
/// block, a lone quote as a value, a `)` before the `(` of a declaration, a
/// stray closing tag in a template); `requires` admits only texts that pass
/// `parse_safe`, on which none of those paths is taken.
#[verifier::external_body]
fn parse_text(text: &str) -> (r: Result<Outline, ParseIssue>)
    requires
        parse_safe(text@),
    ensures
        r == parsed_outline(text@),
{
    match adapto_parser::parse(text) {
        Ok(file) => Ok(outline_of(&file)),
        Err(e) => Err(issue_of(&e)),
    }
}

/// Parses the text (which parses, by `requires`) and
/// compiles the tree with a fresh `Compiler` (`Compiler::new`,
/// `Compiler::compile_file`), as `"<editor>"`, an error becoming its
/// `Display` text. Claimed: it fails exactly when `compile_failure(text)` is
/// some message, and then with that message (the compiler reads nothing but
/// the tree and that name). Not claimed: anything about the compiler's
/// output.
#[verifier::external_body]
fn compile_text(text: &str) -> (r: Result<adapto_compiler::compiler::CompileOutput, String>)
    requires
        parse_safe(text@),
        parsed_outline(text@) is Ok,
    ensures
        r is Err <==> compile_failure(text@) is Some,
        r matches Err(m) ==> compile_failure(text@) == Some(m@),
{
    let file = adapto_parser::parse(text).expect("the text parses");
    let mut compiler = adapto_compiler::compiler::Compiler::new();
    compiler.compile_file(&file, "<editor>").map_err(|e| e.to_string())
}

// ---------------------------------------------------------------------------
// One document
// ---------------------------------------------------------------------------

/// An open document: its text and version, the outline of its parse, the
/// compiler's output, and the errors of both.
#[derive(Debug)]
pub struct DocumentState {
    pub text: String,
    pub version: i32,
    pub ast: Option<Outline>,
    pub compiled: Option<adapto_compiler::compiler::CompileOutput>,
    pub parse_errors: Vec<ParseIssue>,
    pub compile_errors: Vec<String>,
}

impl DocumentState {
    /// The analysis fields hold what the parser and the compiler make of `text`:
    /// for a text that fails `parse_safe`, which is not handed to the parser,
    /// the `NOT_PARSED` issue alone; on a parse error, that error alone and
    /// nothing compiled; on a parse, its outline, and either the compiler's
    /// output or its one error.
    pub open spec fn analyzed(self) -> bool {
        if !parse_safe(self.text@) {
            &&& self.ast is None
            &&& self.compiled is None
            &&& self.parse_errors@.len() == 1
            &&& self.parse_errors@[0] matches ParseIssue::Other { message } && message@ == NOT_PARSED@
            &&& self.compile_errors@.len() == 0
        } else {
        match parsed_outline(self.text@) {
            Ok(o) => {
                &&& self.ast == Some(o)
                &&& self.parse_errors@ == Seq::<ParseIssue>::empty()
                &&& match compile_failure(self.text@) {
                    None => self.compiled is Some && self.compile_errors@.len() == 0,
                    Some(m) => {
                        &&& self.compiled is None
                        &&& self.compile_errors@.len() == 1
                        &&& self.compile_errors@[0]@ == m
                    },
                }
            },
            Err(e) => {
                &&& self.ast is None
                &&& self.compiled is None
                &&& self.parse_errors@ == seq![e]
                &&& self.compile_errors@.len() == 0
            },
        }
        }
    }

    /// A document with `text` at `version`, parsed and compiled (where the
    /// text passes `parse_safe`; else it is reported as not parsed).
    pub fn new(text: String, version: i32) -> (s: Self)
        ensures
            s.text@ == text@,
            s.version == version,
            s.analyzed(),
    {
        let mut state = DocumentState {
            text,
            version,
            ast: None,
            compiled: None,
            parse_errors: Vec::new(),
            compile_errors: Vec::new(),
        };
        state.reparse();
        state
    }

    /// Replaces the text and version, and parses and compiles again.
    pub fn update(&mut self, text: String, version: i32)
        ensures
            final(self).text@ == text@,
            final(self).version == version,
            final(self).analyzed(),
    {
        self.text = text;
        self.version = version;
        self.reparse();
    }

    /// Parses and compiles the text again, and fills the analysis fields.
    fn reparse(&mut self)
        ensures
            final(self).text == old(self).text,
            final(self).version == old(self).version,
            final(self).analyzed(),
    {
        self.parse_errors.clear();
        self.compile_errors.clear();
        if !parse_safe_exec(self.text.as_str()) {
            self.parse_errors.push(ParseIssue::Other { message: crate::text::string_of(&chars_of(NOT_PARSED)) });
            self.ast = None;
            self.compiled = None;
            return;
        }
        match parse_text(self.text.as_str()) {
            Ok(ast) => {
                match compile_text(self.text.as_str()) {
                    Ok(output) => {
                        self.compiled = Some(output);
                    },
                    Err(e) => {
                        self.compile_errors.push(e);
                        self.compiled = None;
                    },
                }
                self.ast = Some(ast);
            },
            Err(e) => {
                self.parse_errors.push(e);
                self.ast = None;
                self.compiled = None;
            },
        }
    }
}

// ---------------------------------------------------------------------------
// Diagnostics
// ---------------------------------------------------------------------------

/// A diagnostic as character sequences.
pub struct DiagnosticView {
    pub range: Range,
    pub severity: Severity,
    pub source: Seq<char>,
    pub message: Seq<char>,
}

impl View for Diagnostic {
    type V = DiagnosticView;

    open spec fn view(&self) -> DiagnosticView {
        DiagnosticView {
            range: self.range,
            severity: self.severity,
            source: self.source@,
            message: self.message@,
        }
    }
}

pub open spec fn diagnostic_views(v: Seq<Diagnostic>) -> Seq<DiagnosticView> {
    v.map_values(|d: Diagnostic| d@)
}

/// `n.saturating_sub(1)`.
pub open spec fn minus_one(n: usize) -> int {
    if n > 0 {
        n - 1
    } else {
        0
    }
}

/// The diagnostics of the parse errors `errs`, one each, in order: a syntax
/// error marks the column before the reported (1-based) one on the line
/// before the reported one, both saturating at 0 and truncated to 32 bits;
/// any other parse error is reported, with its message, at the start of the
/// document.
pub open spec fn parse_diagnostics(errs: Seq<ParseIssue>) -> Seq<DiagnosticView>
    decreases errs.len(),
{
    if errs.len() == 0 {
        Seq::empty()
    } else {
        let before = parse_diagnostics(errs.drop_last());
        match errs.last() {
            ParseIssue::Syntax { line, col, message } => before.push(
                DiagnosticView {
                    range: span(
                        u32_of(minus_one(line)),
                        u32_of(minus_one(col)),
                        u32_of(minus_one(line)),
                        u32_of(col as int),
                    ),
                    severity: Severity::Error,
                    source: "adapto"@,
                    message: message@,
                },
            ),
            ParseIssue::Other { message } => before.push(
                DiagnosticView {
                    range: span(0, 0, 0, 0),
                    severity: Severity::Error,
                    source: "adapto"@,
                    message: message@,
                },
            ),
        }
    }
}

/// The diagnostic of a compile error: at the start of the document.
pub open spec fn compile_diagnostic(m: String) -> DiagnosticView {
    DiagnosticView { range: span(0, 0, 0, 0), severity: Severity::Error, source: "adapto"@, message: m@ }
}

fn truncate(n: usize) -> (r: u32)
    ensures
        r == u32_of(n as int),
{
    (n as u64 % 0x1_0000_0000) as u32
}

/// The diagnostics of a document: one per parse error, then one per compile error.
pub fn diagnostics(doc: &DocumentState) -> (r: Vec<Diagnostic>)
    ensures
        diagnostic_views(r@) == parse_diagnostics(doc.parse_errors@) + doc.compile_errors@.map_values(
            |m: String| compile_diagnostic(m),
        ),
{
    let mut r: Vec<Diagnostic> = Vec::new();
    let mut i: usize = 0;
    while i < doc.parse_errors.len()
        invariant
            i <= doc.parse_errors.len(),
            diagnostic_views(r@) == parse_diagnostics(doc.parse_errors@.take(i as int)),
        decreases doc.parse_errors.len() - i,
    {
        proof {
            assert(doc.parse_errors@.take(i + 1).drop_last() =~= doc.parse_errors@.take(i as int));
        }
        let ghost before = r@;
        match &doc.parse_errors[i] {
            ParseIssue::Syntax { line, col, message } => {
                let l = truncate(if *line > 0 { *line - 1 } else { 0 });
                let c = truncate(if *col > 0 { *col - 1 } else { 0 });
                let source = crate::text::string_of(&chars_of("adapto"));
                r.push(Diagnostic {
                    range: Range {
                        start: crate::protocol::Position { line: l, character: c },
                        end: crate::protocol::Position { line: l, character: truncate(*col) },
                    },
                    severity: Severity::Error,
                    source,
                    message: message.clone(),
                });
                assert(diagnostic_views(r@) =~= diagnostic_views(before).push(r@.last()@));
            },
            ParseIssue::Other { message } => {
                let source = crate::text::string_of(&chars_of("adapto"));
                r.push(Diagnostic {
                    range: Range {
                        start: crate::protocol::Position { line: 0, character: 0 },
                        end: crate::protocol::Position { line: 0, character: 0 },
                    },
                    severity: Severity::Error,
                    source,
                    message: message.clone(),
                });
                assert(diagnostic_views(r@) =~= diagnostic_views(before).push(r@.last()@));
            },
        }
        i = i + 1;
    }
    assert(doc.parse_errors@.take(doc.parse_errors.len() as int) =~= doc.parse_errors@);
    let ghost after_syntax = r@;
    let mut j: usize = 0;
    while j < doc.compile_errors.len()
        invariant
            j <= doc.compile_errors.len(),
            after_syntax.len() <= r@.len(),
            r@.take(after_syntax.len() as int) == after_syntax,
            diagnostic_views(r@) == diagnostic_views(after_syntax) + doc.compile_errors@.take(
                j as int,
            ).map_values(|m: String| compile_diagnostic(m)),
        decreases doc.compile_errors.len() - j,
    {
        let ghost before = r@;
        let source = crate::text::string_of(&chars_of("adapto"));
        r.push(Diagnostic {
            range: Range {
                start: crate::protocol::Position { line: 0, character: 0 },
                end: crate::protocol::Position { line: 0, character: 0 },
            },
            severity: Severity::Error,
            source,
            message: doc.compile_errors[j].clone(),
        });
        proof {
            assert(r@.last()@ == compile_diagnostic(doc.compile_errors@[j as int]));
            assert(doc.compile_errors@.take(j + 1) =~= doc.compile_errors@.take(j as int).push(
                doc.compile_errors@[j as int],
            ));
            assert(diagnostic_views(r@) =~= diagnostic_views(before).push(r@.last()@));
        }
        j = j + 1;
        assert(diagnostic_views(r@) =~= diagnostic_views(after_syntax) + doc.compile_errors@.take(
            j as int,
        ).map_values(|m: String| compile_diagnostic(m)));
    }
    assert(doc.compile_errors@.take(doc.compile_errors.len() as int) =~= doc.compile_errors@);
    r
}

// ---------------------------------------------------------------------------
// The open documents
// ---------------------------------------------------------------------------

#[verifier::external_type_specification]
#[verifier::external_body]
#[verifier::reject_recursive_types(K)]
#[verifier::reject_recursive_types(V)]
#[verifier::reject_recursive_types(S)]
pub struct ExDashMap<K, V, S>(dashmap::DashMap<K, V, S>);

#[verifier::external_type_specification]
#[verifier::external_body]
#[verifier::reject_recursive_types(K)]
#[verifier::reject_recursive_types(V)]
pub struct ExRef<'a, K, V>(dashmap::mapref::one::Ref<'a, K, V>);

/// Documents by URI.
pub type DocumentMap = dashmap::DashMap<String, DocumentState>;

/// A read guard on one document of such a map.
pub type DocumentRef<'a> = dashmap::mapref::one::Ref<'a, String, DocumentState>;

/// What a map of documents holds: each key by its characters, with its document.
pub uninterp spec fn stored(m: DocumentMap) -> Map<Seq<char>, DocumentState>;

/// The document a read guard of that map gives access to.
pub uninterp spec fn guarded(r: DocumentRef) -> DocumentState;

/// `DashMap::new`: the map holds nothing.
#[verifier::external_body]
fn map_new() -> (fresh: DocumentMap)
    ensures
        stored(fresh) =~= Map::empty(),
{
    dashmap::DashMap::new()
}

/// `DashMap::insert`: afterwards the key maps to the value (whatever it
/// mapped to before), and the other keys are unchanged. (Keys compare as
/// `String`s do, by their characters.)
#[verifier::external_body]
fn map_insert(m: &mut DocumentMap, k: String, v: DocumentState)
    ensures
        stored(*final(m)) == stored(*old(m)).insert(k@, v),
{
    m.insert(k, v);
}

/// `DashMap::remove`: the entry of the key leaves the map and is returned,
/// where there was one.
#[verifier::external_body]
fn map_remove(m: &mut DocumentMap, k: &str) -> (r: Option<(String, DocumentState)>)
    ensures
        stored(*final(m)) == stored(*old(m)).remove(k@),
        r is Some <==> stored(*old(m)).contains_key(k@),
        r matches Some(e) ==> e.0@ == k@ && e.1 == stored(*old(m))[k@],
{
    m.remove(k)
}

/// `DashMap::get`: a read guard on the document of the key, where there is one.
#[verifier::external_body]
fn map_get<'a>(m: &'a DocumentMap, k: &str) -> (r: Option<DocumentRef<'a>>)
    ensures
        r is Some <==> stored(*m).contains_key(k@),
        r matches Some(g) ==> guarded(g) == stored(*m)[k@],
{
    m.get(k)
}

/// The open documents, by URI.
#[derive(Debug)]
pub struct DocumentStore {
    documents: DocumentMap,
}

impl View for DocumentStore {
    type V = Map<Seq<char>, DocumentState>;

    closed spec fn view(&self) -> Map<Seq<char>, DocumentState> {
        stored(self.documents)
    }
}

/// `after` is `before` with `uri` now holding a document with `text` at
/// `version`, parsed and compiled.
pub open spec fn holds_new(
    before: Map<Seq<char>, DocumentState>,
    after: Map<Seq<char>, DocumentState>,
    uri: Seq<char>,
    text: Seq<char>,
    version: i32,
) -> bool {
    &&& after == before.insert(uri, after[uri])
    &&& after[uri].text@ == text
    &&& after[uri].version == version
    &&& after[uri].analyzed()
}

impl DocumentStore {
    /// No open documents.
    pub fn new() -> (s: Self)
        ensures
            s@ == Map::<Seq<char>, DocumentState>::empty(),
    {
        DocumentStore { documents: map_new() }
    }

    /// Opens (or reopens) the document at `uri` with `text` at `version`.
    pub fn open(&mut self, uri: String, text: String, version: i32)
        ensures
            holds_new(old(self)@, final(self)@, uri@, text@, version),
    {
        let ghost u = uri@;
        let doc = DocumentState::new(text, version);
        map_insert(&mut self.documents, uri, doc);
        assert(final(self)@ =~= old(self)@.insert(u, final(self)@[u]));
    }

    /// Gives the open document at `uri` a new text and version; a document
    /// that is not open stays closed.
    pub fn change(&mut self, uri: &str, text: String, version: i32)
        ensures
            old(self)@.contains_key(uri@) ==> holds_new(old(self)@, final(self)@, uri@, text@, version),
            !old(self)@.contains_key(uri@) ==> final(self)@ == old(self)@,
    {
        match map_remove(&mut self.documents, uri) {
            Some((key, mut doc)) => {
                doc.update(text, version);
                map_insert(&mut self.documents, key, doc);
                assert(final(self)@ =~= old(self)@.insert(uri@, final(self)@[uri@]));
            },
            None => {
                assert(final(self)@ =~= old(self)@);
            },
        }
    }

    /// Closes the document at `uri`.
    pub fn close(&mut self, uri: &str)
        ensures
            final(self)@ == old(self)@.remove(uri@),
    {
        let _ = map_remove(&mut self.documents, uri);
    }

    /// A read guard on the open document at `uri`.
    pub fn get(&self, uri: &str) -> (r: Option<DocumentRef>)
        ensures
            r is Some <==> self@.contains_key(uri@),
            r matches Some(g) ==> guarded(g) == self@[uri@],
    {
        map_get(&self.documents, uri)
    }
}

impl Default for DocumentStore {
    fn default() -> (s: Self)
        ensures
            s@ == Map::<Seq<char>, DocumentState>::empty(),
    {
        DocumentStore::new()
    }
}

// ---------------------------------------------------------------------------
// Laws
// ---------------------------------------------------------------------------

/// What the server knows of a document depends on its text alone: two
/// analyzed documents with the same text (one freshly opened, one updated,
/// say) have the same outline, the same parse errors, the same compile
/// errors, and both or neither have compiler output.
pub proof fn law_analysis_follows_text(d1: DocumentState, d2: DocumentState)
    requires
        d1.analyzed(),
        d2.analyzed(),
        d1.text@ == d2.text@,
    ensures
        d1.ast == d2.ast,
        parse_diagnostics(d1.parse_errors@) == parse_diagnostics(d2.parse_errors@),
        parse_safe(d1.text@) ==> d1.parse_errors@ == d2.parse_errors@,
        d1.compile_errors@.map_values(|m: String| m@) == d2.compile_errors@.map_values(|m: String| m@),
        (d1.compiled is Some) == (d2.compiled is Some),
{
    assert(d1.compile_errors@.map_values(|m: String| m@) =~= d2.compile_errors@.map_values(
        |m: String| m@,
    ));
    if !parse_safe(d1.text@) {
        assert(d1.parse_errors@.drop_last() =~= Seq::<ParseIssue>::empty());
        assert(d2.parse_errors@.drop_last() =~= Seq::<ParseIssue>::empty());
    }
}

/// Every parse error is published: the parse errors give exactly one
/// diagnostic each.
pub proof fn law_every_parse_error_reported(errs: Seq<ParseIssue>)
    ensures
        parse_diagnostics(errs).len() == errs.len(),
    decreases errs.len(),
{
    if errs.len() > 0 {
        law_every_parse_error_reported(errs.drop_last());
    }
}

/// The shape of an analyzed document: at most one error in all; an outline
/// exactly when there is no parse error; compiler output exactly when there
/// is no error at all; and one diagnostic per error.
pub proof fn law_analysis_shape(d: DocumentState)
    requires
        d.analyzed(),
    ensures
        d.parse_errors@.len() + d.compile_errors@.len() <= 1,
        d.ast is Some <==> d.parse_errors@.len() == 0,
        d.compiled is Some <==> (d.parse_errors@.len() == 0 && d.compile_errors@.len() == 0),
        parse_diagnostics(d.parse_errors@).len() + d.compile_errors@.len() == d.parse_errors@.len()
            + d.compile_errors@.len(),
        d.ast is Some && d.compiled is None ==> d.compile_errors@.len() == 1 && Some(
            d.compile_errors@[0]@,
        ) == compile_failure(d.text@),
{
    law_every_parse_error_reported(d.parse_errors@);
}

/// Reading a document back after opening it gives what was opened: the
/// text and version, analyzed.
pub proof fn law_read_after_open(
    before: Map<Seq<char>, DocumentState>,
    after: Map<Seq<char>, DocumentState>,
    uri: Seq<char>,
    text: Seq<char>,
    version: i32,
)
    requires
        holds_new(before, after, uri, text, version),
    ensures
        after.contains_key(uri),
        after[uri].text@ == text,
        after[uri].version == version,
        after[uri].analyzed(),
{
}

/// Opening or changing one document leaves every other document as it was.
pub proof fn law_other_documents_unchanged(
    before: Map<Seq<char>, DocumentState>,
    after: Map<Seq<char>, DocumentState>,
    uri: Seq<char>,
    text: Seq<char>,
    version: i32,
    other: Seq<char>,
)
    requires
        holds_new(before, after, uri, text, version),
        other != uri,
    ensures
        after.contains_key(other) == before.contains_key(other),
        before.contains_key(other) ==> after[other] == before[other],
{
}

/// Closing a document right after opening it leaves the store as if it had
/// never been open (whatever it held at that URI before is gone too).
pub proof fn law_close_after_open(
    before: Map<Seq<char>, DocumentState>,
    opened: Map<Seq<char>, DocumentState>,
    uri: Seq<char>,
    text: Seq<char>,
    version: i32,
)
    requires
        holds_new(before, opened, uri, text, version),
    ensures
        opened.remove(uri) == before.remove(uri),
{
    assert(opened.remove(uri) =~= before.remove(uri));
}

/// One step on the store, by its effect: an open of `uri` with a text and a
/// version, a change of `uri` to a text and a version, or a close of `uri`.
pub enum StoreStep {
    Open { uri: Seq<char>, text: Seq<char>, version: i32 },
    Change { uri: Seq<char>, text: Seq<char>, version: i32 },
    Close { uri: Seq<char> },
}

/// `after` is what the store holds after `step` took effect on `before`, as
/// the contracts of `open`, `change` and `close` state it.
pub open spec fn step_effect(
    before: Map<Seq<char>, DocumentState>,
    after: Map<Seq<char>, DocumentState>,
    step: StoreStep,
) -> bool {
    match step {
        StoreStep::Open { uri, text, version } => holds_new(before, after, uri, text, version),
        StoreStep::Change { uri, text, version } => {
            &&& before.contains_key(uri) ==> holds_new(before, after, uri, text, version)
            &&& !before.contains_key(uri) ==> after == before
        },
        StoreStep::Close { uri } => after == before.remove(uri),
    }
}

/// The step closes `uri`.
pub open spec fn closes(step: StoreStep, uri: Seq<char>) -> bool {
    step matches StoreStep::Close { uri: u } && u == uri
}

/// The text and version that the last open or change of `uri` among `steps` gave.
pub open spec fn last_write(steps: Seq<StoreStep>, uri: Seq<char>) -> Option<(Seq<char>, i32)>
    decreases steps.len(),
{
    if steps.len() == 0 {
        None
    } else {
        match steps.last() {
            StoreStep::Open { uri: u, text, version } if u == uri => Some((text, version)),
            StoreStep::Change { uri: u, text, version } if u == uri => Some((text, version)),
            _ => last_write(steps.drop_last(), uri),
        }
    }
}

/// After `uri` is opened and then any steps follow that do not close it
/// (changes of it, and anything on other documents), reading `uri` gives the
/// text and version of its last open or change, analyzed; a close then
/// removes it.
pub proof fn law_read_after_steps(
    states: Seq<Map<Seq<char>, DocumentState>>,
    steps: Seq<StoreStep>,
    uri: Seq<char>,
)
    requires
        states.len() == steps.len() + 1,
        forall|i: int| 0 <= i < steps.len() ==> step_effect(states[i], states[i + 1], #[trigger] steps[i]),
        steps.len() > 0,
        steps[0] matches StoreStep::Open { uri: u, .. } && u == uri,
        forall|i: int| 0 <= i < steps.len() ==> !closes(#[trigger] steps[i], uri),
    ensures
        states.last().contains_key(uri),
        last_write(steps, uri) matches Some((t, v)) && states.last()[uri].text@ == t
            && states.last()[uri].version == v && states.last()[uri].analyzed(),
        forall|after: Map<Seq<char>, DocumentState>|
            step_effect(states.last(), after, StoreStep::Close { uri }) ==> !after.contains_key(uri),
    decreases steps.len(),
{
    let n = steps.len() - 1;
    assert(step_effect(states[n], states[n + 1], steps[n]));
    assert(!closes(steps[n], uri));
    if steps.len() > 1 {
        let ps = steps.drop_last();
        let pst = states.drop_last();
        assert forall|i: int| 0 <= i < ps.len() implies step_effect(pst[i], pst[i + 1], #[trigger] ps[i]) by {
            assert(step_effect(states[i], states[i + 1], steps[i]));
        }
        assert forall|i: int| 0 <= i < ps.len() implies !closes(#[trigger] ps[i], uri) by {
            assert(!closes(steps[i], uri));
        }
        assert(ps[0] == steps[0]);
        law_read_after_steps(pst, ps, uri);
        assert(pst.last() == states[n]);
    }
    assert(states.last() == states[n + 1]);
}

} // verus!
