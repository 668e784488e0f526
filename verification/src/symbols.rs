//! Document symbols: the outline view of a parsed document — its route,
//! the declarations of its script block, its template, its style and its
//! resource with the resource's fields.
use vstd::prelude::*;
use crate::document::DocumentState;
use crate::outline::{
    ActionInfo, FieldInfo, MemoInfo, Outline, PropInfo, ResourceOutline, RouteOutline,
    ScriptOutline, StateInfo,
};
use crate::protocol::{
    child_views, opt_view, symbol_views, ChildSymbol, ChildView, DocumentSymbol, SymbolKind,
    SymbolView,
};
use crate::text::{chars_of, push_str, string_of};

verus! {

pub open spec fn child(name: Seq<char>, detail: Option<Seq<char>>, kind: SymbolKind) -> ChildView {
    ChildView { name, detail, kind }
}

pub open spec fn leaf(name: Seq<char>, detail: Option<Seq<char>>, kind: SymbolKind) -> SymbolView {
    SymbolView { name, detail, kind, children: None }
}

pub open spec fn path_part(r: RouteOutline) -> Seq<ChildView> {
    match r.path {
        Some(p) => seq![child("path"@, Some(p@), SymbolKind::Str)],
        None => Seq::empty(),
    }
}

pub open spec fn method_part(r: RouteOutline) -> Seq<ChildView> {
    match r.method {
        Some(m) => seq![child("method"@, Some(m@), SymbolKind::Str)],
        None => Seq::empty(),
    }
}

/// The route: its path (also its detail) and its method.
pub open spec fn route_symbol(r: RouteOutline) -> SymbolView {
    SymbolView {
        name: "route"@,
        detail: opt_view(r.path),
        kind: SymbolKind::Module,
        children: Some(path_part(r) + method_part(r)),
    }
}

/// The declarations of the script block: states, props, memos, loaders,
/// actions, server functions and forms, in that order.
pub open spec fn script_children(s: ScriptOutline) -> Seq<ChildView> {
    s.states@.map_values(|d: StateInfo| child(d.name@, Some(d.ty@), SymbolKind::Variable))
        + s.props@.map_values(|d: PropInfo| child(d.name@, Some(d.ty@), SymbolKind::Property))
        + s.memos@.map_values(
        |d: MemoInfo| child(d.name@, Some(d.ty@ + " (memo)"@), SymbolKind::Variable),
    ) + s.loaders@.map_values(|n: String| child(n@, Some("loader"@), SymbolKind::Function))
        + s.actions@.map_values(|d: ActionInfo| child(d.name@, Some("action"@), SymbolKind::Method))
        + s.server_fns@.map_values(|n: String| child(n@, Some("server fn"@), SymbolKind::Function))
        + s.forms@.map_values(|n: String| child(n@, Some("form"@), SymbolKind::Struct))
}

/// The resource, named after its table, with its fields.
pub open spec fn resource_symbol(r: ResourceOutline) -> SymbolView {
    SymbolView {
        name: "resource ("@ + r.table@ + ")"@,
        detail: Some(r.name@),
        kind: SymbolKind::Class,
        children: Some(
            r.fields@.map_values(|f: FieldInfo| child(f.name@, Some(f.ty@), SymbolKind::Field)),
        ),
    }
}

pub open spec fn route_part(o: Outline) -> Seq<SymbolView> {
    match o.route {
        Some(r) => seq![route_symbol(r)],
        None => Seq::empty(),
    }
}

pub open spec fn script_part(o: Outline) -> Seq<SymbolView> {
    match o.script {
        Some(s) => seq![
            SymbolView {
                name: "script"@,
                detail: None,
                kind: SymbolKind::Namespace,
                children: Some(script_children(s)),
            },
        ],
        None => Seq::empty(),
    }
}

pub open spec fn template_part(o: Outline) -> Seq<SymbolView> {
    if o.has_template {
        seq![leaf("template"@, None, SymbolKind::Namespace)]
    } else {
        Seq::empty()
    }
}

pub open spec fn style_part(o: Outline) -> Seq<SymbolView> {
    match o.style {
        Some(st) => seq![
            leaf(
                "style"@,
                Some(
                    if st.scoped {
                        "scoped"@
                    } else {
                        "global"@
                    },
                ),
                SymbolKind::Namespace,
            ),
        ],
        None => Seq::empty(),
    }
}

pub open spec fn resource_part(o: Outline) -> Seq<SymbolView> {
    match o.resource {
        Some(r) => seq![resource_symbol(r)],
        None => Seq::empty(),
    }
}

/// The symbols of an outline, in the order route, script, template, style, resource.
pub open spec fn outline_symbols(o: Outline) -> Seq<SymbolView> {
    route_part(o) + script_part(o) + template_part(o) + style_part(o) + resource_part(o)
}

/// The symbols of a document: none where it did not parse.
pub open spec fn symbols_of(doc: DocumentState) -> Seq<SymbolView> {
    match doc.ast {
        Some(o) => outline_symbols(o),
        None => Seq::empty(),
    }
}

fn text_of(s: &str) -> (r: String)
    ensures
        r@ == s@,
{
    string_of(&chars_of(s))
}

fn copy_text(s: &String) -> (r: String)
    ensures
        r@ == s@,
{
    s.clone()
}

fn copy_opt(s: &Option<String>) -> (r: Option<String>)
    ensures
        opt_view(r) == opt_view(*s),
{
    match s {
        Some(t) => Some(t.clone()),
        None => None,
    }
}

fn push_child(v: &mut Vec<ChildSymbol>, c: ChildSymbol)
    ensures
        child_views(final(v)@) == child_views(old(v)@).push(c@),
{
    v.push(c);
    assert(child_views(v@) =~= child_views(old(v)@).push(c@));
}

fn push_symbol(v: &mut Vec<DocumentSymbol>, c: DocumentSymbol)
    ensures
        symbol_views(final(v)@) == symbol_views(old(v)@).push(c@),
{
    v.push(c);
    assert(symbol_views(v@) =~= symbol_views(old(v)@).push(c@));
}

fn make_child(name: String, detail: Option<String>, kind: SymbolKind) -> (c: ChildSymbol)
    ensures
        c@ == child(name@, opt_view(detail), kind),
{
    ChildSymbol { name, detail, kind }
}

fn with_suffix(s: &String, suffix: &str) -> (r: String)
    ensures
        r@ == s@ + suffix@,
{
    let mut v = chars_of(s.as_str());
    push_str(&mut v, suffix);
    string_of(&v)
}

fn script_symbols(s: &ScriptOutline) -> (r: Vec<ChildSymbol>)
    ensures
        child_views(r@) == script_children(*s),
{
    let mut r: Vec<ChildSymbol> = Vec::new();
    let ghost a = s.states@.map_values(|d: StateInfo| child(d.name@, Some(d.ty@), SymbolKind::Variable));
    let mut k: usize = 0;
    while k < s.states.len()
        invariant
            a == s.states@.map_values(|d: StateInfo| child(d.name@, Some(d.ty@), SymbolKind::Variable)),
            k <= s.states.len(),
            child_views(r@) == a.take(k as int),
        decreases s.states.len() - k,
    {
        push_child(&mut r, make_child(copy_text(&s.states[k].name), Some(copy_text(&s.states[k].ty)), SymbolKind::Variable));
        k = k + 1;
        assert(child_views(r@) =~= a.take(k as int));
    }
    assert(a.take(s.states.len() as int) =~= a);
    let ghost base = child_views(r@);
    let ghost b = s.props@.map_values(|d: PropInfo| child(d.name@, Some(d.ty@), SymbolKind::Property));
    let mut k: usize = 0;
    while k < s.props.len()
        invariant
            b == s.props@.map_values(|d: PropInfo| child(d.name@, Some(d.ty@), SymbolKind::Property)),
            k <= s.props.len(),
            child_views(r@) == base + b.take(k as int),
        decreases s.props.len() - k,
    {
        push_child(&mut r, make_child(copy_text(&s.props[k].name), Some(copy_text(&s.props[k].ty)), SymbolKind::Property));
        k = k + 1;
        assert(child_views(r@) =~= base + b.take(k as int));
    }
    assert(b.take(s.props.len() as int) =~= b);
    let ghost base = child_views(r@);
    let ghost c = s.memos@.map_values(|d: MemoInfo| child(d.name@, Some(d.ty@ + " (memo)"@), SymbolKind::Variable));
    let mut k: usize = 0;
    while k < s.memos.len()
        invariant
            c == s.memos@.map_values(|d: MemoInfo| child(d.name@, Some(d.ty@ + " (memo)"@), SymbolKind::Variable)),
            k <= s.memos.len(),
            child_views(r@) == base + c.take(k as int),
        decreases s.memos.len() - k,
    {
        push_child(&mut r, make_child(copy_text(&s.memos[k].name), Some(with_suffix(&s.memos[k].ty, " (memo)")), SymbolKind::Variable));
        k = k + 1;
        assert(child_views(r@) =~= base + c.take(k as int));
    }
    assert(c.take(s.memos.len() as int) =~= c);
    let ghost base = child_views(r@);
    let ghost d = s.loaders@.map_values(|n: String| child(n@, Some("loader"@), SymbolKind::Function));
    let mut k: usize = 0;
    while k < s.loaders.len()
        invariant
            d == s.loaders@.map_values(|n: String| child(n@, Some("loader"@), SymbolKind::Function)),
            k <= s.loaders.len(),
            child_views(r@) == base + d.take(k as int),
        decreases s.loaders.len() - k,
    {
        push_child(&mut r, make_child(copy_text(&s.loaders[k]), Some(text_of("loader")), SymbolKind::Function));
        k = k + 1;
        assert(child_views(r@) =~= base + d.take(k as int));
    }
    assert(d.take(s.loaders.len() as int) =~= d);
    let ghost base = child_views(r@);
    let ghost e = s.actions@.map_values(|x: ActionInfo| child(x.name@, Some("action"@), SymbolKind::Method));
    let mut k: usize = 0;
    while k < s.actions.len()
        invariant
            e == s.actions@.map_values(|x: ActionInfo| child(x.name@, Some("action"@), SymbolKind::Method)),
            k <= s.actions.len(),
            child_views(r@) == base + e.take(k as int),
        decreases s.actions.len() - k,
    {
        push_child(&mut r, make_child(copy_text(&s.actions[k].name), Some(text_of("action")), SymbolKind::Method));
        k = k + 1;
        assert(child_views(r@) =~= base + e.take(k as int));
    }
    assert(e.take(s.actions.len() as int) =~= e);
    let ghost base = child_views(r@);
    let ghost f = s.server_fns@.map_values(|n: String| child(n@, Some("server fn"@), SymbolKind::Function));
    let mut k: usize = 0;
    while k < s.server_fns.len()
        invariant
            f == s.server_fns@.map_values(|n: String| child(n@, Some("server fn"@), SymbolKind::Function)),
            k <= s.server_fns.len(),
            child_views(r@) == base + f.take(k as int),
        decreases s.server_fns.len() - k,
    {
        push_child(&mut r, make_child(copy_text(&s.server_fns[k]), Some(text_of("server fn")), SymbolKind::Function));
        k = k + 1;
        assert(child_views(r@) =~= base + f.take(k as int));
    }
    assert(f.take(s.server_fns.len() as int) =~= f);
    let ghost base = child_views(r@);
    let ghost g = s.forms@.map_values(|n: String| child(n@, Some("form"@), SymbolKind::Struct));
    let mut k: usize = 0;
    while k < s.forms.len()
        invariant
            g == s.forms@.map_values(|n: String| child(n@, Some("form"@), SymbolKind::Struct)),
            k <= s.forms.len(),
            child_views(r@) == base + g.take(k as int),
        decreases s.forms.len() - k,
    {
        push_child(&mut r, make_child(copy_text(&s.forms[k]), Some(text_of("form")), SymbolKind::Struct));
        k = k + 1;
        assert(child_views(r@) =~= base + g.take(k as int));
    }
    assert(g.take(s.forms.len() as int) =~= g);
    r
}

fn field_symbols(r: &ResourceOutline) -> (v: Vec<ChildSymbol>)
    ensures
        child_views(v@) == r.fields@.map_values(|f: FieldInfo| child(f.name@, Some(f.ty@), SymbolKind::Field)),
{
    let ghost a = r.fields@.map_values(|f: FieldInfo| child(f.name@, Some(f.ty@), SymbolKind::Field));
    let mut v: Vec<ChildSymbol> = Vec::new();
    let mut k: usize = 0;
    while k < r.fields.len()
        invariant
            a == r.fields@.map_values(|f: FieldInfo| child(f.name@, Some(f.ty@), SymbolKind::Field)),
            k <= r.fields.len(),
            child_views(v@) == a.take(k as int),
        decreases r.fields.len() - k,
    {
        push_child(&mut v, make_child(copy_text(&r.fields[k].name), Some(copy_text(&r.fields[k].ty)), SymbolKind::Field));
        k = k + 1;
        assert(child_views(v@) =~= a.take(k as int));
    }
    assert(a.take(r.fields.len() as int) =~= a);
    v
}

fn route_children(r: &RouteOutline) -> (v: Vec<ChildSymbol>)
    ensures
        Some(child_views(v@)) == route_symbol(*r).children,
{
    let mut v: Vec<ChildSymbol> = Vec::new();
    if let Some(path) = &r.path {
        push_child(&mut v, make_child(text_of("path"), Some(copy_text(path)), SymbolKind::Str));
    }
    let ghost mid = child_views(v@);
    if let Some(method) = &r.method {
        push_child(&mut v, make_child(text_of("method"), Some(copy_text(method)), SymbolKind::Str));
    }
    proof {
        assert(mid =~= path_part(*r));
        assert(child_views(v@) =~= path_part(*r) + method_part(*r));
    }
    v
}

/// The outline symbols of a document.
pub fn document_symbols(doc: &DocumentState) -> (r: Vec<DocumentSymbol>)
    ensures
        symbol_views(r@) == symbols_of(*doc),
{
    let mut symbols: Vec<DocumentSymbol> = Vec::new();
    let ast = match &doc.ast {
        Some(a) => a,
        None => return symbols,
    };
    let ghost parts_route = route_part(*ast);
    if let Some(route) = &ast.route {
        let children = route_children(route);
        push_symbol(
            &mut symbols,
            DocumentSymbol {
                name: text_of("route"),
                detail: copy_opt(&route.path),
                kind: SymbolKind::Module,
                children: Some(children),
            },
        );
    }
    assert(symbol_views(symbols@) =~= parts_route);
    if let Some(script) = &ast.script {
        let children = script_symbols(script);
        push_symbol(
            &mut symbols,
            DocumentSymbol {
                name: text_of("script"),
                detail: None,
                kind: SymbolKind::Namespace,
                children: Some(children),
            },
        );
    }
    let ghost after_script = symbol_views(symbols@);
    if ast.has_template {
        push_symbol(
            &mut symbols,
            DocumentSymbol {
                name: text_of("template"),
                detail: None,
                kind: SymbolKind::Namespace,
                children: None,
            },
        );
    }
    let ghost after_template = symbol_views(symbols@);
    if let Some(style) = &ast.style {
        let scope = if style.scoped {
            text_of("scoped")
        } else {
            text_of("global")
        };
        push_symbol(
            &mut symbols,
            DocumentSymbol {
                name: text_of("style"),
                detail: Some(scope),
                kind: SymbolKind::Namespace,
                children: None,
            },
        );
    }
    let ghost after_style = symbol_views(symbols@);
    if let Some(resource) = &ast.resource {
        let mut name = chars_of("resource (");
        push_str(&mut name, resource.table.as_str());
        push_str(&mut name, ")");
        let children = field_symbols(resource);
        push_symbol(
            &mut symbols,
            DocumentSymbol {
                name: string_of(&name),
                detail: Some(copy_text(&resource.name)),
                kind: SymbolKind::Class,
                children: Some(children),
            },
        );
    }
    proof {
        let o = *ast;
        assert(after_script =~= route_part(o) + script_part(o));
        assert(after_template =~= route_part(o) + script_part(o) + template_part(o));
        assert(after_style =~= route_part(o) + script_part(o) + template_part(o) + style_part(o));
        assert(symbol_views(symbols@) =~= outline_symbols(o));
    }
    symbols
}


/// The outline lists every declaration of the script block: a parsed
/// document with a script block has a `script` symbol whose children are its
/// states (as variables), props (as properties), memos (as variables),
/// loaders (as functions), actions (as methods), server functions (as
/// functions) and forms (as structs), each by its name, one child each.
pub proof fn law_script_symbol_lists_declarations(doc: DocumentState)
    requires
        doc.ast is Some,
        doc.ast->0.script is Some,
    ensures
        ({
            let s = doc.ast->0.script->0;
            let a = s.states@.len();
            let b = a + s.props@.len();
            let c = b + s.memos@.len();
            let d = c + s.loaders@.len();
            let e = d + s.actions@.len();
            let f = e + s.server_fns@.len();
            exists|i: int|
                #![trigger symbols_of(doc)[i]]
                0 <= i < symbols_of(doc).len() && symbols_of(doc)[i].name == "script"@
                    && symbols_of(doc)[i].children is Some && ({ let cs = symbols_of(doc)[i].children->0;
                    cs.len() == f + s.forms@.len()
                    && (forall|k: int| 0 <= k < a ==> cs[k].name == s.states@[k].name@ && cs[k].kind == SymbolKind::Variable)
                    && (forall|k: int| a <= k < b ==> cs[k].name == s.props@[k - a].name@ && cs[k].kind == SymbolKind::Property)
                    && (forall|k: int| b <= k < c ==> cs[k].name == s.memos@[k - b].name@ && cs[k].kind == SymbolKind::Variable)
                    && (forall|k: int| c <= k < d ==> cs[k].name == s.loaders@[k - c]@ && cs[k].kind == SymbolKind::Function)
                    && (forall|k: int| d <= k < e ==> cs[k].name == s.actions@[k - d].name@ && cs[k].kind == SymbolKind::Method)
                    && (forall|k: int| e <= k < f ==> cs[k].name == s.server_fns@[k - e]@ && cs[k].kind == SymbolKind::Function)
                    && (forall|k: int| f <= k < f + s.forms@.len() ==> cs[k].name == s.forms@[k - f]@ && cs[k].kind == SymbolKind::Struct) })
        }),
{
    let o = doc.ast->0;
    let s = o.script->0;
    let i = route_part(o).len() as int;
    let syms = outline_symbols(o);
    assert(syms[i] == script_part(o)[0]);
    let cs = script_children(s);
    let g1 = s.states@.map_values(|d: StateInfo| child(d.name@, Some(d.ty@), SymbolKind::Variable));
    let g2 = s.props@.map_values(|d: PropInfo| child(d.name@, Some(d.ty@), SymbolKind::Property));
    let g3 = s.memos@.map_values(|d: MemoInfo| child(d.name@, Some(d.ty@ + " (memo)"@), SymbolKind::Variable));
    let g4 = s.loaders@.map_values(|n: String| child(n@, Some("loader"@), SymbolKind::Function));
    let g5 = s.actions@.map_values(|d: ActionInfo| child(d.name@, Some("action"@), SymbolKind::Method));
    let g6 = s.server_fns@.map_values(|n: String| child(n@, Some("server fn"@), SymbolKind::Function));
    let g7 = s.forms@.map_values(|n: String| child(n@, Some("form"@), SymbolKind::Struct));
    assert(cs == g1 + g2 + g3 + g4 + g5 + g6 + g7);
    let a = g1.len() as int;
    let b = a + g2.len();
    let c = b + g3.len();
    let d = c + g4.len();
    let e = d + g5.len();
    let f = e + g6.len();
    assert forall|k: int| 0 <= k < a implies cs[k].name == s.states@[k].name@ && cs[k].kind == SymbolKind::Variable by {
        assert(cs[k] == g1[k]);
    }
    assert forall|k: int| a <= k < b implies cs[k].name == s.props@[k - a].name@ && cs[k].kind == SymbolKind::Property by {
        assert(cs[k] == g2[k - a]);
    }
    assert forall|k: int| b <= k < c implies cs[k].name == s.memos@[k - b].name@ && cs[k].kind == SymbolKind::Variable by {
        assert(cs[k] == g3[k - b]);
    }
    assert forall|k: int| c <= k < d implies cs[k].name == s.loaders@[k - c]@ && cs[k].kind == SymbolKind::Function by {
        assert(cs[k] == g4[k - c]);
    }
    assert forall|k: int| d <= k < e implies cs[k].name == s.actions@[k - d].name@ && cs[k].kind == SymbolKind::Method by {
        assert(cs[k] == g5[k - d]);
    }
    assert forall|k: int| e <= k < f implies cs[k].name == s.server_fns@[k - e]@ && cs[k].kind == SymbolKind::Function by {
        assert(cs[k] == g6[k - e]);
    }
    assert forall|k: int| f <= k < f + g7.len() implies cs[k].name == s.forms@[k - f]@ && cs[k].kind == SymbolKind::Struct by {
        assert(cs[k] == g7[k - f]);
    }
    assert(symbols_of(doc)[i] == syms[i]);
}

} // verus!
