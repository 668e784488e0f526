//! Completion: the items offered depend on where the cursor is — at a
//! top-level tag, in an event binding, or inside a route, template,
//! resource or script block (found by looking upwards from the cursor).
use vstd::prelude::*;
use crate::document::DocumentState;
use crate::outline::{ActionInfo, MemoInfo, Outline, PropInfo, StateInfo};
use crate::protocol::{completion_views, CompletionItem, CompletionKind, CompletionView, Position};
use crate::text::{
    chars_of, contains, contains_exec, has_prefix, line_or_empty, lines_of, lines_view, push_str,
    split_lines, starts_with, string_of, trim, trimmed,
};

verus! {

/// Where the cursor is, as far as completion cares.
#[derive(Clone, Copy, Debug, PartialEq, Eq, Structural)]
pub enum Context {
    TopLevel,
    Route,
    Template,
    Resource,
    Script,
    EventModifier,
    Unknown,
}

/// The (trimmed) line starts with the tag `tag` whose name ends there: at
/// the end of the line, at a `>` or at a space (as the parser reads a
/// block's tag), so that `<styled-box>` is not a `<style` tag.
pub open spec fn tag_at(l: Seq<char>, tag: Seq<char>) -> bool {
    &&& starts_with(l, tag)
    &&& (l.len() == tag.len() || l[tag.len() as int] == '>' || l[tag.len() as int] == ' ')
}

/// The (trimmed) line closes a top-level block.
pub open spec fn closes_top_block(l: Seq<char>) -> bool {
    ||| tag_at(l, "</route"@)
    ||| tag_at(l, "</script"@)
    ||| tag_at(l, "</template"@)
    ||| tag_at(l, "</style"@)
    ||| tag_at(l, "</resource"@)
    ||| tag_at(l, "</layout"@)
}

/// The (trimmed) line opens a top-level block in which completion offers nothing.
pub open spec fn opens_other_block(l: Seq<char>) -> bool {
    tag_at(l, "<style"@) || tag_at(l, "<layout"@)
}

/// Looking upwards from line `i`: the block whose opening tag comes first;
/// `Unknown` where the closing tag of a top-level block comes first (the
/// cursor is past that block), where a style or layout block opens first,
/// or at the top of the document. Other closing tags (of elements inside a
/// block) and other lines are passed over.
pub open spec fn enclosing_block(lines: Seq<Seq<char>>, i: int) -> Context
    decreases i + 1,
{
    if i < 0 {
        Context::Unknown
    } else {
        let l = trim(line_or_empty(lines, i));
        if closes_top_block(l) {
            Context::Unknown
        } else if starts_with(l, "</"@) {
            enclosing_block(lines, i - 1)
        } else if starts_with(l, "<route"@) {
            Context::Route
        } else if starts_with(l, "<template"@) {
            Context::Template
        } else if starts_with(l, "<resource"@) {
            Context::Resource
        } else if starts_with(l, "<script"@) {
            Context::Script
        } else if opens_other_block(l) {
            Context::Unknown
        } else {
            enclosing_block(lines, i - 1)
        }
    }
}

/// The context of the cursor on `current` (line `idx` of `lines`): an
/// unfinished tag, an event binding (`on:`), or the enclosing block.
pub open spec fn context_of(current: Seq<char>, lines: Seq<Seq<char>>, idx: int) -> Context {
    let t = trim(current);
    if starts_with(t, "<"@) && !contains(t, ">"@) {
        Context::TopLevel
    } else if contains(t, "on:"@) {
        Context::EventModifier
    } else {
        enclosing_block(lines, idx)
    }
}

/// A snippet item: `insert` is inserted in snippet syntax.
pub open spec fn snippet(label: Seq<char>, insert: Seq<char>, detail: Seq<char>) -> CompletionView {
    CompletionView {
        label,
        kind: CompletionKind::Snippet,
        detail: Some(detail),
        insert_text: Some(insert),
        snippet: true,
    }
}

/// A keyword item.
pub open spec fn keyword(label: Seq<char>, detail: Seq<char>) -> CompletionView {
    CompletionView {
        label,
        kind: CompletionKind::Keyword,
        detail: Some(detail),
        insert_text: None,
        snippet: false,
    }
}

/// A declared name, of the given kind, with a detail.
pub open spec fn named_item(label: Seq<char>, kind: CompletionKind, detail: Seq<char>) -> CompletionView {
    CompletionView { label, kind, detail: Some(detail), insert_text: None, snippet: false }
}

/// The blocks of a file.
pub open spec fn block_items() -> Seq<CompletionView> {
    seq![
        snippet("route"@, "<route>\n\t$0\n</route>"@, "Route block"@),
        snippet("script"@, "<script lang=\"rust\">\n\t$0\n</script>"@, "Script block"@),
        snippet("template"@, "<template>\n\t$0\n</template>"@, "Template block"@),
        snippet("style"@, "<style scoped>\n\t$0\n</style>"@, "Style block"@),
        snippet("resource"@, "<resource table=\"$1\">\n\t$0\n</resource>"@, "Resource block"@),
        snippet("layout"@, "<layout name=\"$1\">\n\t$0\n</layout>"@, "Layout block"@),
    ]
}

/// The attributes of a route block.
pub open spec fn route_items() -> Seq<CompletionView> {
    seq![
        keyword("path"@, "Route path pattern"@),
        keyword("method"@, "HTTP method (get, post, put, delete)"@),
        keyword("layout"@, "Layout name"@),
        keyword("auth"@, "Auth level (public, required, verified)"@),
        keyword("permission"@, "Required permission"@),
        keyword("tenant"@, "Tenant mode (none, required, optional)"@),
        keyword("cache"@, "Cache policy"@),
    ]
}

/// The control-flow constructs of a template.
pub open spec fn template_items() -> Seq<CompletionView> {
    seq![
        snippet("if"@, "{#if $1}\n\t$0\n{/if}"@, "Conditional block"@),
        snippet("if-else"@, "{#if $1}\n\t$2\n{:else}\n\t$0\n{/if}"@, "Conditional with else"@),
        snippet("each"@, "{#each $1 as $2}\n\t$0\n{/each}"@, "Loop over collection"@),
        snippet("match"@, "{#match $1}\n\t{:when $2}\n\t\t$0\n{/match}"@, "Pattern match"@),
        snippet("can"@, "{#can \"$1\"}\n\t$0\n{/can}"@, "Permission guard"@),
        snippet("html"@, "{@html $0}"@, "Raw HTML output"@),
    ]
}

/// The declarations of a resource block.
pub open spec fn resource_items() -> Seq<CompletionView> {
    seq![
        snippet(
            "field"@,
            "field $1: $2 ${3|@required,@optional,@unique,@searchable|}"@,
            "Resource field"@,
        ),
        keyword("permission"@, "Resource permission"@),
        keyword("tenant"@, "Tenant scope"@),
        keyword("primary_key"@, "Primary key field"@),
    ]
}

/// The declarations of a script block.
pub open spec fn script_items() -> Seq<CompletionView> {
    seq![
        snippet("state"@, "state $1: $2 = $0"@, "State declaration"@),
        snippet("prop"@, "prop $1: $2"@, "Prop declaration"@),
        snippet("memo"@, "memo $1: $2 = $0"@, "Memo (computed) declaration"@),
        snippet("load"@, "load async fn $1(ctx: Ctx) {\n\t$0\n}"@, "Load function"@),
        snippet("action"@, "action async fn $1($2) {\n\t$0\n}"@, "Action handler"@),
        snippet("server"@, "server async fn $1($2) {\n\t$0\n}"@, "Server function"@),
    ]
}

/// The modifiers of an event binding.
pub open spec fn event_modifier_items() -> Seq<CompletionView> {
    seq![
        keyword("prevent"@, "Call preventDefault()"@),
        keyword("stop"@, "Call stopPropagation()"@),
        snippet("debounce"@, "debounce.${1:300}"@, "Debounce with ms delay"@),
        snippet("throttle"@, "throttle.${1:300}"@, "Throttle with ms delay"@),
    ]
}

pub open spec fn state_item(s: StateInfo) -> CompletionView {
    named_item(s.name@, CompletionKind::Variable, "state: "@ + s.ty@)
}

pub open spec fn prop_item(p: PropInfo) -> CompletionView {
    named_item(p.name@, CompletionKind::Property, "prop: "@ + p.ty@)
}

pub open spec fn memo_item(m: MemoInfo) -> CompletionView {
    named_item(m.name@, CompletionKind::Variable, "memo: "@ + m.ty@)
}

pub open spec fn action_item(a: ActionInfo) -> CompletionView {
    named_item(a.name@, CompletionKind::Function, "action"@)
}

/// The states, props, memos and actions declared in the script block, in that order.
pub open spec fn field_items(o: Outline) -> Seq<CompletionView> {
    match o.script {
        None => Seq::empty(),
        Some(s) => s.states@.map_values(|d: StateInfo| state_item(d)) + s.props@.map_values(
            |d: PropInfo| prop_item(d),
        ) + s.memos@.map_values(|d: MemoInfo| memo_item(d)) + s.actions@.map_values(
            |d: ActionInfo| action_item(d),
        ),
    }
}

/// The items offered at `pos`.
pub open spec fn completions_at(doc: DocumentState, pos: Position) -> Seq<CompletionView> {
    let lines = lines_of(doc.text@);
    let current = line_or_empty(lines, pos.line as int);
    match context_of(current, lines, pos.line as int) {
        Context::TopLevel => block_items(),
        Context::Route => route_items(),
        Context::Template => template_items() + match doc.ast {
            Some(o) => field_items(o),
            None => Seq::empty(),
        },
        Context::Resource => resource_items(),
        Context::Script => script_items(),
        Context::EventModifier => event_modifier_items(),
        Context::Unknown => Seq::empty(),
    }
}

proof fn lemma_enclosing_past_end(lines: Seq<Seq<char>>, i: int)
    requires
        i >= lines.len(),
    ensures
        enclosing_block(lines, i) == enclosing_block(lines, lines.len() - 1),
    decreases i - lines.len(),
{
    if i > lines.len() - 1 {
        reveal_strlit("</");
        reveal_strlit("<route");
        reveal_strlit("<template");
        reveal_strlit("<resource");
        reveal_strlit("<script");
        reveal_strlit("</route");
        reveal_strlit("</script");
        reveal_strlit("</template");
        reveal_strlit("</style");
        reveal_strlit("</resource");
        reveal_strlit("</layout");
        reveal_strlit("<style");
        reveal_strlit("<layout");
        assert(line_or_empty(lines, i) =~= Seq::<char>::empty());
        assert(trim(Seq::<char>::empty()) =~= Seq::<char>::empty());
        if i - 1 >= lines.len() {
            lemma_enclosing_past_end(lines, i - 1);
        }
    }
}

fn tag_at_exec(l: &Vec<char>, tag: &str) -> (b: bool)
    ensures
        b == tag_at(l@, tag@),
{
    let t = chars_of(tag);
    if !has_prefix(l, &t) {
        return false;
    }
    let n = t.len();
    n == l.len() || l[n] == '>' || l[n] == ' '
}

fn closes_top_exec(l: &Vec<char>) -> (b: bool)
    ensures
        b == closes_top_block(l@),
{
    tag_at_exec(l, "</route") || tag_at_exec(l, "</script") || tag_at_exec(l, "</template")
        || tag_at_exec(l, "</style") || tag_at_exec(l, "</resource") || tag_at_exec(l, "</layout")
}

fn opens_other_exec(l: &Vec<char>) -> (b: bool)
    ensures
        b == opens_other_block(l@),
{
    tag_at_exec(l, "<style") || tag_at_exec(l, "<layout")
}

/// The context of the cursor.
fn detect_context(current: &Vec<char>, lines: &Vec<Vec<char>>, line_idx: usize) -> (c: Context)
    ensures
        c == context_of(current@, lines_view(lines@), line_idx as int),
{
    let ghost all = lines_view(lines@);
    let ghost expected = context_of(current@, all, line_idx as int);
    let t = trimmed(current);
    let lt = chars_of("<");
    let gt = chars_of(">");
    if has_prefix(&t, &lt) && !contains_exec(&t, &gt) {
        return Context::TopLevel;
    }
    if contains_exec(&t, &chars_of("on:")) {
        return Context::EventModifier;
    }
    assert(expected == enclosing_block(all, line_idx as int));
    if lines.len() == 0 {
        proof {
            lemma_enclosing_past_end(all, line_idx as int);
        }
        return Context::Unknown;
    }
    let mut i: usize = if line_idx < lines.len() {
        line_idx
    } else {
        lines.len() - 1
    };
    proof {
        if line_idx >= lines.len() {
            lemma_enclosing_past_end(all, line_idx as int);
        }
    }
    let close = chars_of("</");
    let route = chars_of("<route");
    let template = chars_of("<template");
    let resource = chars_of("<resource");
    let script = chars_of("<script");
    loop
        invariant
            all == lines_view(lines@),
            i < lines.len(),
            expected == context_of(current@, all, line_idx as int),
            expected == enclosing_block(all, i as int),
            close@ == "</"@,
            route@ == "<route"@,
            template@ == "<template"@,
            resource@ == "<resource"@,
            script@ == "<script"@,
        decreases i,
    {
        let l = trimmed(&lines[i]);
        proof {
            assert(line_or_empty(all, i as int) == lines[i as int]@);
        }
        if closes_top_exec(&l) {
            return Context::Unknown;
        }
        if !has_prefix(&l, &close) {
            if has_prefix(&l, &route) {
                return Context::Route;
            }
            if has_prefix(&l, &template) {
                return Context::Template;
            }
            if has_prefix(&l, &resource) {
                return Context::Resource;
            }
            if has_prefix(&l, &script) {
                return Context::Script;
            }
            if opens_other_exec(&l) {
                return Context::Unknown;
            }
        }
        proof {
            assert(expected == enclosing_block(all, i - 1));
        }
        if i == 0 {
            assert(enclosing_block(all, -1) == Context::Unknown);
            return Context::Unknown;
        }
        i = i - 1;
    }
}

fn text_of(s: &str) -> (r: String)
    ensures
        r@ == s@,
{
    string_of(&chars_of(s))
}

fn make_snippet(label: &str, insert: &str, detail: &str) -> (c: CompletionItem)
    ensures
        c@ == snippet(label@, insert@, detail@),
{
    CompletionItem {
        label: text_of(label),
        kind: CompletionKind::Snippet,
        detail: Some(text_of(detail)),
        insert_text: Some(text_of(insert)),
        snippet: true,
    }
}

fn make_keyword(label: &str, detail: &str) -> (c: CompletionItem)
    ensures
        c@ == keyword(label@, detail@),
{
    CompletionItem {
        label: text_of(label),
        kind: CompletionKind::Keyword,
        detail: Some(text_of(detail)),
        insert_text: None,
        snippet: false,
    }
}

fn push_item(items: &mut Vec<CompletionItem>, c: CompletionItem)
    ensures
        completion_views(final(items)@) == completion_views(old(items)@).push(c@),
{
    items.push(c);
    assert(completion_views(items@) =~= completion_views(old(items)@).push(c@));
}

fn block_completions() -> (r: Vec<CompletionItem>)
    ensures
        completion_views(r@) == block_items(),
{
    let mut r: Vec<CompletionItem> = Vec::new();
    push_item(&mut r, make_snippet("route", "<route>\n\t$0\n</route>", "Route block"));
    push_item(&mut r, make_snippet("script", "<script lang=\"rust\">\n\t$0\n</script>", "Script block"));
    push_item(&mut r, make_snippet("template", "<template>\n\t$0\n</template>", "Template block"));
    push_item(&mut r, make_snippet("style", "<style scoped>\n\t$0\n</style>", "Style block"));
    push_item(
        &mut r,
        make_snippet("resource", "<resource table=\"$1\">\n\t$0\n</resource>", "Resource block"),
    );
    push_item(&mut r, make_snippet("layout", "<layout name=\"$1\">\n\t$0\n</layout>", "Layout block"));
    assert(completion_views(r@) =~= block_items());
    r
}

fn route_attribute_completions() -> (r: Vec<CompletionItem>)
    ensures
        completion_views(r@) == route_items(),
{
    let mut r: Vec<CompletionItem> = Vec::new();
    push_item(&mut r, make_keyword("path", "Route path pattern"));
    push_item(&mut r, make_keyword("method", "HTTP method (get, post, put, delete)"));
    push_item(&mut r, make_keyword("layout", "Layout name"));
    push_item(&mut r, make_keyword("auth", "Auth level (public, required, verified)"));
    push_item(&mut r, make_keyword("permission", "Required permission"));
    push_item(&mut r, make_keyword("tenant", "Tenant mode (none, required, optional)"));
    push_item(&mut r, make_keyword("cache", "Cache policy"));
    assert(completion_views(r@) =~= route_items());
    r
}

fn template_completions() -> (r: Vec<CompletionItem>)
    ensures
        completion_views(r@) == template_items(),
{
    let mut r: Vec<CompletionItem> = Vec::new();
    push_item(&mut r, make_snippet("if", "{#if $1}\n\t$0\n{/if}", "Conditional block"));
    push_item(
        &mut r,
        make_snippet("if-else", "{#if $1}\n\t$2\n{:else}\n\t$0\n{/if}", "Conditional with else"),
    );
    push_item(&mut r, make_snippet("each", "{#each $1 as $2}\n\t$0\n{/each}", "Loop over collection"));
    push_item(
        &mut r,
        make_snippet("match", "{#match $1}\n\t{:when $2}\n\t\t$0\n{/match}", "Pattern match"),
    );
    push_item(&mut r, make_snippet("can", "{#can \"$1\"}\n\t$0\n{/can}", "Permission guard"));
    push_item(&mut r, make_snippet("html", "{@html $0}", "Raw HTML output"));
    assert(completion_views(r@) =~= template_items());
    r
}

fn resource_completions() -> (r: Vec<CompletionItem>)
    ensures
        completion_views(r@) == resource_items(),
{
    let mut r: Vec<CompletionItem> = Vec::new();
    push_item(
        &mut r,
        make_snippet(
            "field",
            "field $1: $2 ${3|@required,@optional,@unique,@searchable|}",
            "Resource field",
        ),
    );
    push_item(&mut r, make_keyword("permission", "Resource permission"));
    push_item(&mut r, make_keyword("tenant", "Tenant scope"));
    push_item(&mut r, make_keyword("primary_key", "Primary key field"));
    assert(completion_views(r@) =~= resource_items());
    r
}

fn script_keyword_completions() -> (r: Vec<CompletionItem>)
    ensures
        completion_views(r@) == script_items(),
{
    let mut r: Vec<CompletionItem> = Vec::new();
    push_item(&mut r, make_snippet("state", "state $1: $2 = $0", "State declaration"));
    push_item(&mut r, make_snippet("prop", "prop $1: $2", "Prop declaration"));
    push_item(&mut r, make_snippet("memo", "memo $1: $2 = $0", "Memo (computed) declaration"));
    push_item(&mut r, make_snippet("load", "load async fn $1(ctx: Ctx) {\n\t$0\n}", "Load function"));
    push_item(&mut r, make_snippet("action", "action async fn $1($2) {\n\t$0\n}", "Action handler"));
    push_item(&mut r, make_snippet("server", "server async fn $1($2) {\n\t$0\n}", "Server function"));
    assert(completion_views(r@) =~= script_items());
    r
}

fn event_modifier_completions() -> (r: Vec<CompletionItem>)
    ensures
        completion_views(r@) == event_modifier_items(),
{
    let mut r: Vec<CompletionItem> = Vec::new();
    push_item(&mut r, make_keyword("prevent", "Call preventDefault()"));
    push_item(&mut r, make_keyword("stop", "Call stopPropagation()"));
    push_item(&mut r, make_snippet("debounce", "debounce.${1:300}", "Debounce with ms delay"));
    push_item(&mut r, make_snippet("throttle", "throttle.${1:300}", "Throttle with ms delay"));
    assert(completion_views(r@) =~= event_modifier_items());
    r
}

fn detail_text(prefix: &str, ty: &String) -> (r: String)
    ensures
        r@ == prefix@ + ty@,
{
    let mut v = chars_of(prefix);
    push_str(&mut v, ty.as_str());
    string_of(&v)
}

/// The states, props, memos and actions of the document's script block.
fn state_field_completions(ast: &Outline) -> (r: Vec<CompletionItem>)
    ensures
        completion_views(r@) == field_items(*ast),
{
    let mut items: Vec<CompletionItem> = Vec::new();
    if let Some(script) = &ast.script {
        let ghost states = script.states@.map_values(|d: StateInfo| state_item(d));
        let ghost props = script.props@.map_values(|d: PropInfo| prop_item(d));
        let ghost memos = script.memos@.map_values(|d: MemoInfo| memo_item(d));
        let ghost actions = script.actions@.map_values(|d: ActionInfo| action_item(d));
        let mut k: usize = 0;
        while k < script.states.len()
            invariant
                states == script.states@.map_values(|d: StateInfo| state_item(d)),
                k <= script.states.len(),
                completion_views(items@) == states.take(k as int),
            decreases script.states.len() - k,
        {
            let s = &script.states[k];
            push_item(
                &mut items,
                CompletionItem {
                    label: s.name.clone(),
                    kind: CompletionKind::Variable,
                    detail: Some(detail_text("state: ", &s.ty)),
                    insert_text: None,
                    snippet: false,
                },
            );
            k = k + 1;
            assert(completion_views(items@) =~= states.take(k as int));
        }
        assert(states.take(script.states.len() as int) =~= states);
        let ghost base = completion_views(items@);
        let mut k: usize = 0;
        while k < script.props.len()
            invariant
                props == script.props@.map_values(|d: PropInfo| prop_item(d)),
                k <= script.props.len(),
                completion_views(items@) == base + props.take(k as int),
            decreases script.props.len() - k,
        {
            let p = &script.props[k];
            push_item(
                &mut items,
                CompletionItem {
                    label: p.name.clone(),
                    kind: CompletionKind::Property,
                    detail: Some(detail_text("prop: ", &p.ty)),
                    insert_text: None,
                    snippet: false,
                },
            );
            k = k + 1;
            assert(completion_views(items@) =~= base + props.take(k as int));
        }
        assert(props.take(script.props.len() as int) =~= props);
        let ghost base = completion_views(items@);
        let mut k: usize = 0;
        while k < script.memos.len()
            invariant
                memos == script.memos@.map_values(|d: MemoInfo| memo_item(d)),
                k <= script.memos.len(),
                completion_views(items@) == base + memos.take(k as int),
            decreases script.memos.len() - k,
        {
            let m = &script.memos[k];
            push_item(
                &mut items,
                CompletionItem {
                    label: m.name.clone(),
                    kind: CompletionKind::Variable,
                    detail: Some(detail_text("memo: ", &m.ty)),
                    insert_text: None,
                    snippet: false,
                },
            );
            k = k + 1;
            assert(completion_views(items@) =~= base + memos.take(k as int));
        }
        assert(memos.take(script.memos.len() as int) =~= memos);
        let ghost base = completion_views(items@);
        let mut k: usize = 0;
        while k < script.actions.len()
            invariant
                actions == script.actions@.map_values(|d: ActionInfo| action_item(d)),
                k <= script.actions.len(),
                completion_views(items@) == base + actions.take(k as int),
            decreases script.actions.len() - k,
        {
            let a = &script.actions[k];
            push_item(
                &mut items,
                CompletionItem {
                    label: a.name.clone(),
                    kind: CompletionKind::Function,
                    detail: Some(text_of("action")),
                    insert_text: None,
                    snippet: false,
                },
            );
            k = k + 1;
            assert(completion_views(items@) =~= base + actions.take(k as int));
        }
        assert(actions.take(script.actions.len() as int) =~= actions);
    }
    items
}

fn append_items(items: &mut Vec<CompletionItem>, more: Vec<CompletionItem>)
    ensures
        completion_views(final(items)@) == completion_views(old(items)@) + completion_views(more@),
{
    let mut more = more;
    let ghost all = completion_views(more@);
    items.append(&mut more);
    assert(completion_views(items@) =~= completion_views(old(items)@) + all);
}

/// The completion items for the cursor at `position`.
pub fn completions(doc: &DocumentState, position: Position) -> (r: Vec<CompletionItem>)
    ensures
        completion_views(r@) == completions_at(*doc, position),
{
    let chars = chars_of(doc.text.as_str());
    let lines = split_lines(&chars);
    let line_idx = position.line as usize;
    let empty: Vec<char> = Vec::new();
    let current = if line_idx < lines.len() {
        &lines[line_idx]
    } else {
        &empty
    };
    proof {
        assert(line_or_empty(lines_view(lines@), line_idx as int) =~= current@);
    }
    let mut items: Vec<CompletionItem> = Vec::new();
    let context = detect_context(current, &lines, line_idx);
    match context {
        Context::TopLevel => append_items(&mut items, block_completions()),
        Context::Route => append_items(&mut items, route_attribute_completions()),
        Context::Template => {
            append_items(&mut items, template_completions());
            if let Some(ast) = &doc.ast {
                append_items(&mut items, state_field_completions(ast));
            }
        },
        Context::Resource => append_items(&mut items, resource_completions()),
        Context::Script => append_items(&mut items, script_keyword_completions()),
        Context::EventModifier => append_items(&mut items, event_modifier_completions()),
        Context::Unknown => {},
    }
    assert(completion_views(items@) =~= completions_at(*doc, position));
    items
}


/// An event binding: where the cursor's line, trimmed, is not an unfinished
/// tag and holds `on:` anywhere (also at its start, as on a line of its own
/// inside a multi-line tag), the items offered are the event modifiers:
/// `prevent`, `stop`, `debounce` and `throttle`.
pub proof fn law_event_binding_offers_modifiers(doc: DocumentState, pos: Position)
    requires
        !(starts_with(trim(line_or_empty(lines_of(doc.text@), pos.line as int)), "<"@) && !contains(
            trim(line_or_empty(lines_of(doc.text@), pos.line as int)),
            ">"@,
        )),
        contains(trim(line_or_empty(lines_of(doc.text@), pos.line as int)), "on:"@),
    ensures
        completions_at(doc, pos) == event_modifier_items(),
        completions_at(doc, pos).len() == 4,
        completions_at(doc, pos)[0].label == "prevent"@,
        completions_at(doc, pos)[1].label == "stop"@,
        completions_at(doc, pos)[2].label == "debounce"@,
        completions_at(doc, pos)[3].label == "throttle"@,
{
}

} // verus!
