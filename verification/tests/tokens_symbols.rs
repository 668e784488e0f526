use adapto_lsp::document::DocumentState;
use adapto_lsp::protocol::{SemanticToken, SymbolKind};
use adapto_lsp::semantic_tokens::{
    encode_tokens, semantic_tokens, RawToken, TOKEN_MODIFIERS, TOKEN_TYPES,
};
use adapto_lsp::symbols::document_symbols;

const SCRIPT: &str = "<script lang=\"rust\">\n  state count: i32 = 0\n  prop id: Uuid\n  #[permission(\"x.y\")]\n  action async fn delete(id: Uuid) {\n  }\n  memo m: i32 = 1\n</script>\n";

fn tok(delta_line: u32, delta_start: u32, length: u32, token_type: u32, mods: u32) -> SemanticToken {
    SemanticToken { delta_line, delta_start, length, token_type, token_modifiers_bitset: mods }
}

#[test]
fn tokens_of_declarations_and_decorators() {
    let doc = DocumentState::new(SCRIPT.to_string(), 1);
    assert!(doc.ast.is_some());
    let tokens = semantic_tokens(&doc);
    assert_eq!(
        tokens,
        vec![
            tok(1, 8, 5, 0, 0b001),
            tok(1, 7, 2, 1, 0b010),
            tok(1, 2, 20, 5, 0),
            tok(1, 18, 6, 2, 0),
            tok(2, 7, 1, 0, 0b010),
        ]
    );
}

#[test]
fn no_tokens_for_a_document_that_does_not_parse() {
    let doc = DocumentState::new("<route \n  state x: i32".to_string(), 1);
    assert!(doc.ast.is_none());
    assert!(semantic_tokens(&doc).is_empty());
}

#[test]
fn delta_encoding_on_one_line() {
    let raws = vec![
        RawToken { line: 2, start: 4, length: 3, token_type: 0, token_modifiers: 1 },
        RawToken { line: 2, start: 10, length: 1, token_type: 2, token_modifiers: 0 },
        RawToken { line: 5, start: 1, length: 2, token_type: 5, token_modifiers: 0 },
    ];
    assert_eq!(
        encode_tokens(&raws),
        vec![tok(2, 4, 3, 0, 1), tok(0, 6, 1, 2, 0), tok(3, 1, 2, 5, 0)]
    );
}

#[test]
fn tokens_out_of_order_wrap_around() {
    let raws = vec![
        RawToken { line: 0, start: 9, length: 1, token_type: 2, token_modifiers: 0 },
        RawToken { line: 0, start: 2, length: 4, token_type: 5, token_modifiers: 0 },
    ];
    assert_eq!(
        encode_tokens(&raws),
        vec![tok(0, 9, 1, 2, 0), tok(0, u32::MAX - 6, 4, 5, 0)]
    );
}

#[test]
fn a_decorator_before_an_action_on_one_line_comes_first() {
    let text = "<script lang=\"rust\">\n  #[audit(\"a.b\")] action fn f() {\n  }\n</script>\n";
    let doc = DocumentState::new(text.to_string(), 1);
    assert!(doc.ast.is_some());
    let tokens = semantic_tokens(&doc);
    assert_eq!(tokens, vec![tok(1, 2, 31, 5, 0), tok(0, 26, 1, 2, 0)]);
}

#[test]
fn every_token_is_inside_the_legend() {
    let doc = DocumentState::new(SCRIPT.to_string(), 1);
    for t in semantic_tokens(&doc) {
        assert!((t.token_type as usize) < TOKEN_TYPES.len());
        assert!(t.token_modifiers_bitset < (1 << TOKEN_MODIFIERS.len()));
        assert!(matches!(
            (t.token_type, t.token_modifiers_bitset),
            (0, 1) | (1, 2) | (0, 2) | (2, 0) | (5, 0)
        ));
    }
}

#[test]
fn decoding_the_deltas_gives_back_the_places() {
    let doc = DocumentState::new(SCRIPT.to_string(), 1);
    let tokens = semantic_tokens(&doc);
    let mut line = 0u32;
    let mut start = 0u32;
    let mut places = Vec::new();
    for t in &tokens {
        line += t.delta_line;
        start = if t.delta_line == 0 { start + t.delta_start } else { t.delta_start };
        places.push((line, start));
    }
    assert_eq!(places, vec![(1, 8), (2, 7), (3, 2), (4, 18), (6, 7)]);
}

#[test]
fn legend_names() {
    assert_eq!(TOKEN_TYPES[0], "variable");
    assert_eq!(TOKEN_TYPES[5], "decorator");
    assert_eq!(TOKEN_TYPES.len(), 8);
    assert_eq!(TOKEN_MODIFIERS, ["declaration", "readonly", "async"]);
}

const COUNTER: &str = "<route>\n  path: \"/counter\"\n  method: \"GET\"\n</route>\n<script lang=\"rust\">\n  state count: i32 = 0\n  memo twice: i32 = count * 2\n  action increment() {\n    count += 1\n  }\n</script>\n<template>\n  <p>{count}</p>\n</template>\n<style scoped>\n  p { }\n</style>\n";

#[test]
fn symbols_of_a_page() {
    let doc = DocumentState::new(COUNTER.to_string(), 1);
    assert!(doc.ast.is_some());
    let syms = document_symbols(&doc);
    let names: Vec<&str> = syms.iter().map(|s| s.name.as_str()).collect();
    assert_eq!(names, vec!["route", "script", "template", "style"]);

    assert_eq!(syms[0].detail.as_deref(), Some("/counter"));
    assert_eq!(syms[0].kind, SymbolKind::Module);
    let route_children = syms[0].children.as_ref().unwrap();
    assert_eq!(route_children.len(), 2);
    assert_eq!(route_children[0].name, "path");
    assert_eq!(route_children[0].detail.as_deref(), Some("/counter"));
    assert_eq!(route_children[0].kind, SymbolKind::Str);
    assert_eq!(route_children[1].name, "method");
    assert_eq!(route_children[1].detail.as_deref(), Some("GET"));

    assert_eq!(syms[1].kind, SymbolKind::Namespace);
    assert_eq!(syms[1].detail, None);
    let script = syms[1].children.as_ref().unwrap();
    assert_eq!(script.len(), 3);
    assert_eq!(script[0].name, "count");
    assert_eq!(script[0].detail.as_deref(), Some("i32"));
    assert_eq!(script[0].kind, SymbolKind::Variable);
    assert_eq!(script[1].name, "twice");
    assert_eq!(script[1].detail.as_deref(), Some("i32 (memo)"));
    assert_eq!(script[2].name, "increment");
    assert_eq!(script[2].detail.as_deref(), Some("action"));
    assert_eq!(script[2].kind, SymbolKind::Method);

    assert!(syms[2].children.is_none());
    assert_eq!(syms[3].detail.as_deref(), Some("scoped"));
}

#[test]
fn symbols_of_a_resource() {
    let text = "<resource name=\"Customer\" table=\"customers\">\n  field id: Uuid readonly\n  field name: String required\n</resource>\n<style global>\n  a { }\n</style>\n";
    let doc = DocumentState::new(text.to_string(), 1);
    assert!(doc.ast.is_some());
    let syms = document_symbols(&doc);
    assert_eq!(syms.len(), 2);
    assert_eq!(syms[0].name, "style");
    assert_eq!(syms[0].detail.as_deref(), Some("global"));
    assert_eq!(syms[1].name, "resource (customers)");
    assert_eq!(syms[1].detail.as_deref(), Some("Customer"));
    assert_eq!(syms[1].kind, SymbolKind::Class);
    let fields = syms[1].children.as_ref().unwrap();
    assert_eq!(fields.len(), 2);
    assert_eq!(fields[1].name, "name");
    assert_eq!(fields[1].detail.as_deref(), Some("String"));
    assert_eq!(fields[1].kind, SymbolKind::Field);
}

#[test]
fn no_symbols_without_a_parse() {
    let doc = DocumentState::new("<route \n".to_string(), 1);
    assert!(document_symbols(&doc).is_empty());
}
