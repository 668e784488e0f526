//! Hover: documentation for the keywords of the format, and the declaration
//! of a state, prop, memo or action under the cursor.
use vstd::prelude::*;
use crate::document::DocumentState;
use crate::outline::{ActionInfo, MemoInfo, Outline, ParamInfo, PropInfo, StateInfo};
use crate::protocol::{Hover, Position};
use crate::text::{chars_of, eq_chars, extract_word, lines_of, lines_view, push_all, push_str, split_lines, string_of, word_at};

verus! {

pub const ROUTE_DOC: &'static str = "**`<route>`** \u{2014} Route metadata block\n\nDefines HTTP route: path, method, auth level, layout, permissions, tenant scope, caching.";

pub const SCRIPT_DOC: &'static str = "**`<script lang=\"rust\">`** \u{2014} Rust logic block\n\nDeclare state, props, memos, load functions, actions, server functions, and forms.";

pub const TEMPLATE_DOC: &'static str = "**`<template>`** \u{2014} HTML template block\n\nReactive HTML with control flow (`{#if}`, `{#each}`, `{#match}`, `{#can}`), expressions (`{expr}`), event bindings (`on:event`), and two-way bindings (`bind:field`).";

pub const STYLE_DOC: &'static str = "**`<style>`** \u{2014} CSS styles\n\nAdd `scoped` for component-local styles or `global` for app-wide.";

pub const RESOURCE_DOC: &'static str = "**`<resource>`** \u{2014} Data model definition\n\nDefines fields with types and constraints, permissions, tenant scoping. Generates CRUD operations.";

pub const LAYOUT_DOC: &'static str = "**`<layout>`** \u{2014} Layout wrapper\n\nNamed layout with auth and tenant requirements. Referenced by routes.";

pub const STATE_DOC: &'static str = "**`state`** \u{2014} Reactive state field\n\n```\nstate name: Type = default\n```\n\nDeclares reactive state. Changes trigger template re-render via dynamic segments.";

pub const PROP_DOC: &'static str = "**`prop`** \u{2014} Component property\n\n```\nprop name: Type\n```\n\nRead-only input from parent component.";

pub const MEMO_DOC: &'static str = "**`memo`** \u{2014} Computed value\n\n```\nmemo name: Type = expression\n```\n\nDerived from state, re-computed when dependencies change.";

pub const LOAD_DOC: &'static str = "**`load`** \u{2014} Data loader\n\n```\nload async fn name(ctx: Ctx) { ... }\n```\n\nRuns on page load. Populates initial state from DB or API.";

pub const ACTION_DOC: &'static str = "**`action`** \u{2014} Event handler\n\n```\n#[permission(\"...\")]\naction async fn name(params) { ... }\n```\n\nHandles user interactions. Can have permission and audit decorators.";

pub const ISLAND_DOC: &'static str = "**`island`** \u{2014} Component isolation\n\nMarks component for independent hydration. Only this component's JS ships to client.";

/// The documentation of a keyword of the format.
pub open spec fn keyword_doc(w: Seq<char>) -> Option<Seq<char>> {
    if w == "route"@ {
        Some(ROUTE_DOC@)
    } else if w == "script"@ {
        Some(SCRIPT_DOC@)
    } else if w == "template"@ {
        Some(TEMPLATE_DOC@)
    } else if w == "style"@ {
        Some(STYLE_DOC@)
    } else if w == "resource"@ {
        Some(RESOURCE_DOC@)
    } else if w == "layout"@ {
        Some(LAYOUT_DOC@)
    } else if w == "state"@ {
        Some(STATE_DOC@)
    } else if w == "prop"@ {
        Some(PROP_DOC@)
    } else if w == "memo"@ {
        Some(MEMO_DOC@)
    } else if w == "load"@ {
        Some(LOAD_DOC@)
    } else if w == "action"@ {
        Some(ACTION_DOC@)
    } else if w == "island"@ {
        Some(ISLAND_DOC@)
    } else {
        None
    }
}

/// The first index of `w` among `names`.
pub open spec fn first_index(names: Seq<Seq<char>>, w: Seq<char>, i: int) -> Option<int>
    decreases names.len() - i,
{
    if i < 0 || i >= names.len() {
        None
    } else if names[i] == w {
        Some(i)
    } else {
        first_index(names, w, i + 1)
    }
}

/// `**state** `name: ty``, then ` = `default`` where there is a default, then
/// a warning paragraph where the state is secret.
pub open spec fn state_text(s: StateInfo) -> Seq<char> {
    "**state** `"@ + s.name@ + ": "@ + s.ty@ + "`"@ + match s.default {
        Some(d) => " = `"@ + d@ + "`"@,
        None => Seq::empty(),
    } + if s.secret {
        "\n\nSecret \u{2014} cannot be rendered in template"@
    } else {
        Seq::empty()
    }
}

/// `**prop** `name: ty``.
pub open spec fn prop_text(p: PropInfo) -> Seq<char> {
    "**prop** `"@ + p.name@ + ": "@ + p.ty@ + "`"@
}

/// `**memo** `name: ty` = `expr``.
pub open spec fn memo_text(m: MemoInfo) -> Seq<char> {
    "**memo** `"@ + m.name@ + ": "@ + m.ty@ + "` = `"@ + m.expr@ + "`"@
}

/// `name: ty`.
pub open spec fn param_text(p: ParamInfo) -> Seq<char> {
    p.name@ + ": "@ + p.ty@
}

/// The parts separated by `sep` (`[String]::join`).
pub open spec fn join(parts: Seq<Seq<char>>, sep: Seq<char>) -> Seq<char>
    decreases parts.len(),
{
    if parts.len() == 0 {
        Seq::empty()
    } else if parts.len() == 1 {
        parts[0]
    } else {
        join(parts.drop_last(), sep) + sep + parts.last()
    }
}

/// `**action** `name(p: T, ...)``, then its permission and `async` paragraphs where they apply.
pub open spec fn action_text(a: ActionInfo) -> Seq<char> {
    "**action** `"@ + a.name@ + "("@ + join(
        a.params@.map_values(|p: ParamInfo| param_text(p)),
        ", "@,
    ) + ")`"@ + match a.permission {
        Some(p) => "\n\nPermission: `"@ + p@ + "`"@,
        None => Seq::empty(),
    } + if a.is_async {
        "\n\nasync"@
    } else {
        Seq::empty()
    }
}

/// The declaration named `w`: the first state of that name, else the first
/// prop, else the first memo, else the first action.
pub open spec fn declaration_text(o: Outline, w: Seq<char>) -> Option<Seq<char>> {
    match o.script {
        None => None,
        Some(s) => match first_index(s.states@.map_values(|d: StateInfo| d.name@), w, 0) {
            Some(k) => Some(state_text(s.states@[k])),
            None => match first_index(s.props@.map_values(|d: PropInfo| d.name@), w, 0) {
                Some(k) => Some(prop_text(s.props@[k])),
                None => match first_index(s.memos@.map_values(|d: MemoInfo| d.name@), w, 0) {
                    Some(k) => Some(memo_text(s.memos@[k])),
                    None => match first_index(s.actions@.map_values(|d: ActionInfo| d.name@), w, 0) {
                        Some(k) => Some(action_text(s.actions@[k])),
                        None => None,
                    },
                },
            },
        },
    }
}

/// What hovering at `pos` shows: nothing past the last line or where no
/// word is under the cursor; a keyword's documentation; else, in a document
/// that parsed, the declaration of that name.
pub open spec fn hover_of(doc: DocumentState, pos: Position) -> Option<Seq<char>> {
    let lines = lines_of(doc.text@);
    if pos.line >= lines.len() {
        None
    } else {
        match word_at(lines[pos.line as int], pos.character as int) {
            None => None,
            Some(w) => match keyword_doc(w) {
                Some(d) => Some(d),
                None => match doc.ast {
                    None => None,
                    Some(o) => declaration_text(o, w),
                },
            },
        }
    }
}

fn make_hover(content: &Vec<char>) -> (h: Hover)
    ensures
        h.markdown@ == content@,
{
    Hover { markdown: string_of(content) }
}

fn is_lit(w: &Vec<char>, lit: &str) -> (b: bool)
    ensures
        b == (w@ == lit@),
{
    eq_chars(w, &chars_of(lit))
}

fn doc_of(w: &Vec<char>) -> (r: Option<&'static str>)
    ensures
        r matches Some(d) ==> keyword_doc(w@) == Some(d@),
        r is None ==> keyword_doc(w@) is None,
{
    if is_lit(w, "route") {
        Some(ROUTE_DOC)
    } else if is_lit(w, "script") {
        Some(SCRIPT_DOC)
    } else if is_lit(w, "template") {
        Some(TEMPLATE_DOC)
    } else if is_lit(w, "style") {
        Some(STYLE_DOC)
    } else if is_lit(w, "resource") {
        Some(RESOURCE_DOC)
    } else if is_lit(w, "layout") {
        Some(LAYOUT_DOC)
    } else if is_lit(w, "state") {
        Some(STATE_DOC)
    } else if is_lit(w, "prop") {
        Some(PROP_DOC)
    } else if is_lit(w, "memo") {
        Some(MEMO_DOC)
    } else if is_lit(w, "load") {
        Some(LOAD_DOC)
    } else if is_lit(w, "action") {
        Some(ACTION_DOC)
    } else if is_lit(w, "island") {
        Some(ISLAND_DOC)
    } else {
        None
    }
}

/// The documentation of the keyword `word`, if it is one.
fn keyword_hover(word: &Vec<char>) -> (r: Option<Hover>)
    ensures
        r matches Some(h) ==> keyword_doc(word@) == Some(h.markdown@),
        r is None ==> keyword_doc(word@) is None,
{
    match doc_of(word) {
        Some(d) => Some(make_hover(&chars_of(d))),
        None => None,
    }
}

fn push_string(dst: &mut Vec<char>, s: &String)
    ensures
        final(dst)@ == old(dst)@ + s@,
{
    push_str(dst, s.as_str());
}

/// The index of the first name equal to `w`.
fn find_name(names: &Vec<String>, w: &Vec<char>) -> (r: Option<usize>)
    ensures
        r matches Some(k) ==> first_index(names@.map_values(|n: String| n@), w@, 0) == Some(k as int)
            && k < names.len(),
        r is None ==> first_index(names@.map_values(|n: String| n@), w@, 0) is None,
{
    let ghost all = names@.map_values(|n: String| n@);
    let mut k: usize = 0;
    while k < names.len()
        invariant
            all == names@.map_values(|n: String| n@),
            k <= names.len(),
            first_index(all, w@, 0) == first_index(all, w@, k as int),
        decreases names.len() - k,
    {
        if eq_chars(&chars_of(names[k].as_str()), w) {
            return Some(k);
        }
        k = k + 1;
    }
    None
}

fn state_names(v: &Vec<StateInfo>) -> (r: Vec<String>)
    ensures
        r@.map_values(|n: String| n@) == v@.map_values(|d: StateInfo| d.name@),
{
    let mut r: Vec<String> = Vec::new();
    let mut k: usize = 0;
    while k < v.len()
        invariant
            k <= v.len(),
            r@.map_values(|n: String| n@) == v@.take(k as int).map_values(|d: StateInfo| d.name@),
        decreases v.len() - k,
    {
        let ghost prev = r@;
        let n = v[k].name.clone();
        r.push(n);
        proof {
            assert(r@ == prev.push(n));
            assert(v@.take(k + 1) =~= v@.take(k as int).push(v@[k as int]));
            assert(r@.map_values(|n: String| n@) =~= prev.map_values(|n: String| n@).push(n@));
        }
        k = k + 1;
        assert(r@.map_values(|n: String| n@) =~= v@.take(k as int).map_values(|d: StateInfo| d.name@));
    }
    assert(v@.take(v.len() as int) =~= v@);
    r
}

fn prop_names(v: &Vec<PropInfo>) -> (r: Vec<String>)
    ensures
        r@.map_values(|n: String| n@) == v@.map_values(|d: PropInfo| d.name@),
{
    let mut r: Vec<String> = Vec::new();
    let mut k: usize = 0;
    while k < v.len()
        invariant
            k <= v.len(),
            r@.map_values(|n: String| n@) == v@.take(k as int).map_values(|d: PropInfo| d.name@),
        decreases v.len() - k,
    {
        let ghost prev = r@;
        let n = v[k].name.clone();
        r.push(n);
        proof {
            assert(r@ == prev.push(n));
            assert(v@.take(k + 1) =~= v@.take(k as int).push(v@[k as int]));
            assert(r@.map_values(|n: String| n@) =~= prev.map_values(|n: String| n@).push(n@));
        }
        k = k + 1;
        assert(r@.map_values(|n: String| n@) =~= v@.take(k as int).map_values(|d: PropInfo| d.name@));
    }
    assert(v@.take(v.len() as int) =~= v@);
    r
}

fn memo_names(v: &Vec<MemoInfo>) -> (r: Vec<String>)
    ensures
        r@.map_values(|n: String| n@) == v@.map_values(|d: MemoInfo| d.name@),
{
    let mut r: Vec<String> = Vec::new();
    let mut k: usize = 0;
    while k < v.len()
        invariant
            k <= v.len(),
            r@.map_values(|n: String| n@) == v@.take(k as int).map_values(|d: MemoInfo| d.name@),
        decreases v.len() - k,
    {
        let ghost prev = r@;
        let n = v[k].name.clone();
        r.push(n);
        proof {
            assert(r@ == prev.push(n));
            assert(v@.take(k + 1) =~= v@.take(k as int).push(v@[k as int]));
            assert(r@.map_values(|n: String| n@) =~= prev.map_values(|n: String| n@).push(n@));
        }
        k = k + 1;
        assert(r@.map_values(|n: String| n@) =~= v@.take(k as int).map_values(|d: MemoInfo| d.name@));
    }
    assert(v@.take(v.len() as int) =~= v@);
    r
}

fn action_names(v: &Vec<ActionInfo>) -> (r: Vec<String>)
    ensures
        r@.map_values(|n: String| n@) == v@.map_values(|d: ActionInfo| d.name@),
{
    let mut r: Vec<String> = Vec::new();
    let mut k: usize = 0;
    while k < v.len()
        invariant
            k <= v.len(),
            r@.map_values(|n: String| n@) == v@.take(k as int).map_values(|d: ActionInfo| d.name@),
        decreases v.len() - k,
    {
        let ghost prev = r@;
        let n = v[k].name.clone();
        r.push(n);
        proof {
            assert(r@ == prev.push(n));
            assert(v@.take(k + 1) =~= v@.take(k as int).push(v@[k as int]));
            assert(r@.map_values(|n: String| n@) =~= prev.map_values(|n: String| n@).push(n@));
        }
        k = k + 1;
        assert(r@.map_values(|n: String| n@) =~= v@.take(k as int).map_values(|d: ActionInfo| d.name@));
    }
    assert(v@.take(v.len() as int) =~= v@);
    r
}

fn build_state_text(s: &StateInfo) -> (r: Vec<char>)
    ensures
        r@ == state_text(*s),
{
    let mut r = chars_of("**state** `");
    push_string(&mut r, &s.name);
    push_str(&mut r, ": ");
    push_string(&mut r, &s.ty);
    push_str(&mut r, "`");
    let ghost head = r@;
    match &s.default {
        Some(d) => {
            push_str(&mut r, " = `");
            push_string(&mut r, d);
            push_str(&mut r, "`");
        },
        None => {},
    }
    let ghost mid = r@;
    if s.secret {
        push_str(&mut r, "\n\nSecret \u{2014} cannot be rendered in template");
    }
    proof {
        let dpart = match &s.default {
            Some(d) => " = `"@ + d@ + "`"@,
            None => Seq::<char>::empty(),
        };
        assert(mid =~= head + dpart);
        let spart = if s.secret {
            "\n\nSecret \u{2014} cannot be rendered in template"@
        } else {
            Seq::<char>::empty()
        };
        assert(r@ =~= mid + spart);
        assert(r@ =~= state_text(*s));
    }
    r
}

fn build_prop_text(p: &PropInfo) -> (r: Vec<char>)
    ensures
        r@ == prop_text(*p),
{
    let mut r = chars_of("**prop** `");
    push_string(&mut r, &p.name);
    push_str(&mut r, ": ");
    push_string(&mut r, &p.ty);
    push_str(&mut r, "`");
    assert(r@ =~= prop_text(*p));
    r
}

fn build_memo_text(m: &MemoInfo) -> (r: Vec<char>)
    ensures
        r@ == memo_text(*m),
{
    let mut r = chars_of("**memo** `");
    push_string(&mut r, &m.name);
    push_str(&mut r, ": ");
    push_string(&mut r, &m.ty);
    push_str(&mut r, "` = `");
    push_string(&mut r, &m.expr);
    push_str(&mut r, "`");
    assert(r@ =~= memo_text(*m));
    r
}

fn build_params(params: &Vec<ParamInfo>) -> (r: Vec<char>)
    ensures
        r@ == join(params@.map_values(|p: ParamInfo| param_text(p)), ", "@),
{
    let ghost parts = params@.map_values(|p: ParamInfo| param_text(p));
    let mut r: Vec<char> = Vec::new();
    let mut k: usize = 0;
    while k < params.len()
        invariant
            parts == params@.map_values(|p: ParamInfo| param_text(p)),
            k <= params.len(),
            r@ == join(parts.take(k as int), ", "@),
        decreases params.len() - k,
    {
        let ghost before = r@;
        if k > 0 {
            push_str(&mut r, ", ");
        }
        push_string(&mut r, &params[k].name);
        push_str(&mut r, ": ");
        push_string(&mut r, &params[k].ty);
        proof {
            let t1 = parts.take(k + 1);
            assert(t1.drop_last() =~= parts.take(k as int));
            assert(t1.last() == param_text(params@[k as int]));
            if k == 0 {
                assert(before =~= Seq::<char>::empty());
                assert(r@ =~= t1[0]);
            } else {
                assert(r@ =~= before + ", "@ + t1.last());
            }
        }
        k = k + 1;
    }
    assert(parts.take(params.len() as int) =~= parts);
    r
}

fn build_action_text(a: &ActionInfo) -> (r: Vec<char>)
    ensures
        r@ == action_text(*a),
{
    let mut r = chars_of("**action** `");
    push_string(&mut r, &a.name);
    push_str(&mut r, "(");
    let params = build_params(&a.params);
    push_all(&mut r, &params);
    push_str(&mut r, ")`");
    let ghost head = r@;
    match &a.permission {
        Some(p) => {
            push_str(&mut r, "\n\nPermission: `");
            push_string(&mut r, p);
            push_str(&mut r, "`");
        },
        None => {},
    }
    let ghost mid = r@;
    if a.is_async {
        push_str(&mut r, "\n\nasync");
    }
    proof {
        let ppart = match &a.permission {
            Some(p) => "\n\nPermission: `"@ + p@ + "`"@,
            None => Seq::<char>::empty(),
        };
        assert(mid =~= head + ppart);
        let apart = if a.is_async {
            "\n\nasync"@
        } else {
            Seq::<char>::empty()
        };
        assert(r@ =~= mid + apart);
        assert(r@ =~= action_text(*a));
    }
    r
}

/// The declaration named `word` in the outline.
fn state_hover(ast: &Outline, word: &Vec<char>) -> (r: Option<Hover>)
    ensures
        r matches Some(h) ==> declaration_text(*ast, word@) == Some(h.markdown@),
        r is None ==> declaration_text(*ast, word@) is None,
{
    let script = match &ast.script {
        Some(s) => s,
        None => return None,
    };
    if let Some(k) = find_name(&state_names(&script.states), word) {
        return Some(make_hover(&build_state_text(&script.states[k])));
    }
    if let Some(k) = find_name(&prop_names(&script.props), word) {
        return Some(make_hover(&build_prop_text(&script.props[k])));
    }
    if let Some(k) = find_name(&memo_names(&script.memos), word) {
        return Some(make_hover(&build_memo_text(&script.memos[k])));
    }
    if let Some(k) = find_name(&action_names(&script.actions), word) {
        return Some(make_hover(&build_action_text(&script.actions[k])));
    }
    None
}

/// What to show when the pointer rests at `position`.
pub fn hover_info(doc: &DocumentState, position: Position) -> (r: Option<Hover>)
    ensures
        r matches Some(h) ==> hover_of(*doc, position) == Some(h.markdown@),
        r is None ==> hover_of(*doc, position) is None,
{
    let chars = chars_of(doc.text.as_str());
    let lines = split_lines(&chars);
    let line_idx = position.line as usize;
    if line_idx >= lines.len() {
        return None;
    }
    proof {
        assert(lines_view(lines@)[line_idx as int] == lines[line_idx as int]@);
    }
    let word = match extract_word(&lines[line_idx], position.character) {
        Some(w) => w,
        None => return None,
    };
    if let Some(info) = keyword_hover(&word) {
        return Some(info);
    }
    match &doc.ast {
        Some(ast) => state_hover(ast, &word),
        None => None,
    }
}


/// The hover text of an action ends with the paragraph `async` exactly when
/// the action is async; otherwise it ends with the backquote that closes its
/// signature or its permission.
pub proof fn law_action_async_paragraph(a: ActionInfo)
    ensures
        a.is_async ==> ends_with_async(action_text(a)),
        !a.is_async ==> action_text(a).last() == '`' && !ends_with_async(action_text(a)),
{
    reveal_strlit("\n\nasync");
    reveal_strlit(")`");
    reveal_strlit("`");
    let head = "**action** `"@ + a.name@ + "("@ + join(
        a.params@.map_values(|p: ParamInfo| param_text(p)),
        ", "@,
    ) + ")`"@;
    let perm = match a.permission {
        Some(p) => "\n\nPermission: `"@ + p@ + "`"@,
        None => Seq::empty(),
    };
    let tail = if a.is_async {
        "\n\nasync"@
    } else {
        Seq::empty()
    };
    assert(action_text(a) == head + perm + tail);
    if a.is_async {
        assert((head + perm + tail).skip((head + perm).len() as int) =~= tail);
    } else {
        assert(head + perm + tail =~= head + perm);
        assert(head.last() == '`');
        match a.permission {
            Some(p) => {
                assert((head + perm).last() == '`');
            },
            None => {
                assert(head + perm =~= head);
            },
        }
        let x = action_text(a);
        if ends_with_async(x) {
            assert(x.skip(x.len() - 7)[6] == x.last());
        }
    }
}

/// The text ends with the paragraph `async`.
pub open spec fn ends_with_async(s: Seq<char>) -> bool {
    s.len() >= 7 && s.skip(s.len() - 7) == "\n\nasync"@
}

} // verus!
