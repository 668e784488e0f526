//! What the server reads of a parsed `.adapto` file: the declarations of its
//! script block, its route, style and resource blocks, and whether it has a
//! template; and how a failed parse is reported.
use vstd::prelude::*;

verus! {

/// `state name: ty = default`, possibly secret.
#[derive(Debug)]
pub struct StateInfo {
    pub name: String,
    pub ty: String,
    pub default: Option<String>,
    pub secret: bool,
}

/// `prop name: ty`.
#[derive(Debug)]
pub struct PropInfo {
    pub name: String,
    pub ty: String,
}

/// `memo name: ty = expr`.
#[derive(Debug)]
pub struct MemoInfo {
    pub name: String,
    pub ty: String,
    pub expr: String,
}

/// A parameter `name: ty` of an action.
#[derive(Debug)]
pub struct ParamInfo {
    pub name: String,
    pub ty: String,
}

/// `action [async] fn name(params)`, with its permission decorator if any.
#[derive(Debug)]
pub struct ActionInfo {
    pub name: String,
    pub params: Vec<ParamInfo>,
    pub permission: Option<String>,
    pub is_async: bool,
}

/// The declarations of a `<script>` block; loaders, server functions and
/// forms by name.
#[derive(Debug)]
pub struct ScriptOutline {
    pub states: Vec<StateInfo>,
    pub props: Vec<PropInfo>,
    pub memos: Vec<MemoInfo>,
    pub loaders: Vec<String>,
    pub actions: Vec<ActionInfo>,
    pub server_fns: Vec<String>,
    pub forms: Vec<String>,
}

/// The path and method of a `<route>` block.
#[derive(Debug)]
pub struct RouteOutline {
    pub path: Option<String>,
    pub method: Option<String>,
}

/// A `<style>` block: scoped or global.
#[derive(Debug)]
pub struct StyleOutline {
    pub scoped: bool,
}

/// A field `name: ty` of a resource.
#[derive(Debug)]
pub struct FieldInfo {
    pub name: String,
    pub ty: String,
}

/// A `<resource>` block: its name, its table and its fields.
#[derive(Debug)]
pub struct ResourceOutline {
    pub name: String,
    pub table: String,
    pub fields: Vec<FieldInfo>,
}

/// The blocks of a parsed file, as far as the server reads them.
#[derive(Debug)]
pub struct Outline {
    pub route: Option<RouteOutline>,
    pub script: Option<ScriptOutline>,
    pub has_template: bool,
    pub style: Option<StyleOutline>,
    pub resource: Option<ResourceOutline>,
}

/// Why a text did not parse: a syntax error at a (1-based) line and column,
/// or another kind of problem (unknown or duplicate block, unclosed block,
/// invalid value, ...) with the parser's message for it.
#[derive(Debug)]
pub enum ParseIssue {
    Syntax { line: usize, col: usize, message: String },
    Other { message: String },
}

} // verus!
