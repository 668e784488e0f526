use adapto_lsp::document::{diagnostics, DocumentState, DocumentStore, NOT_PARSED};
use adapto_lsp::safety::parse_safe_exec;
use adapto_lsp::outline::ParseIssue;
use adapto_lsp::protocol::{Position, Range, Severity};

const GOOD: &str = "<script lang=\"rust\">\n  state count: i32 = 0\n  action increment() {\n    count += 1\n  }\n</script>\n<template>\n  <button on:click=\"increment\">{count}</button>\n</template>\n";

const DUPLICATE_STATE: &str = "<script lang=\"rust\">\n  state count: i32 = 0\n  state count: i32 = 1\n</script>\n";

const UNCLOSED_TAG: &str = "\n<route \n";

const DUPLICATE_BLOCK: &str = "<route>\n  path: \"/a\"\n</route>\n<route>\n  path: \"/b\"\n</route>\n";

fn zero() -> Range {
    Range {
        start: Position { line: 0, character: 0 },
        end: Position { line: 0, character: 0 },
    }
}

#[test]
fn a_good_document_parses_and_compiles() {
    let doc = DocumentState::new(GOOD.to_string(), 7);
    assert_eq!(doc.text, GOOD);
    assert_eq!(doc.version, 7);
    let ast = doc.ast.as_ref().unwrap();
    let script = ast.script.as_ref().unwrap();
    assert_eq!(script.states.len(), 1);
    assert_eq!(script.states[0].name, "count");
    assert_eq!(script.states[0].ty, "i32");
    assert_eq!(script.states[0].default.as_deref(), Some("0"));
    assert_eq!(script.actions[0].name, "increment");
    assert!(!script.actions[0].is_async);
    assert!(ast.has_template);
    assert!(ast.route.is_none());
    assert!(doc.compiled.is_some());
    assert!(doc.parse_errors.is_empty());
    assert!(doc.compile_errors.is_empty());
    assert!(diagnostics(&doc).is_empty());
}

#[test]
fn a_compile_error_is_reported_at_the_start() {
    let doc = DocumentState::new(DUPLICATE_STATE.to_string(), 1);
    assert!(doc.ast.is_some());
    assert!(doc.compiled.is_none());
    assert_eq!(doc.compile_errors, vec!["E0201: Duplicate state declaration: count".to_string()]);
    let diags = diagnostics(&doc);
    assert_eq!(diags.len(), 1);
    assert_eq!(diags[0].range, zero());
    assert_eq!(diags[0].severity, Severity::Error);
    assert_eq!(diags[0].source, "adapto");
    assert_eq!(diags[0].message, "E0201: Duplicate state declaration: count");
}

#[test]
fn a_syntax_error_is_reported_where_it_is() {
    let doc = DocumentState::new(UNCLOSED_TAG.to_string(), 1);
    assert!(doc.ast.is_none());
    assert!(doc.compiled.is_none());
    assert!(doc.compile_errors.is_empty());
    assert_eq!(doc.parse_errors.len(), 1);
    match &doc.parse_errors[0] {
        ParseIssue::Syntax { line, col, message } => {
            assert_eq!((*line, *col), (2, 1));
            assert_eq!(message, "Unclosed opening tag for <route>");
        }
        ParseIssue::Other { .. } => panic!("expected a syntax error"),
    }
    let diags = diagnostics(&doc);
    assert_eq!(diags.len(), 1);
    assert_eq!(
        diags[0].range,
        Range {
            start: Position { line: 1, character: 0 },
            end: Position { line: 1, character: 1 },
        }
    );
    assert_eq!(diags[0].message, "Unclosed opening tag for <route>");
    assert_eq!(diags[0].source, "adapto");
}

#[test]
fn other_parse_errors_are_reported_at_the_start() {
    let doc = DocumentState::new(DUPLICATE_BLOCK.to_string(), 1);
    assert!(doc.ast.is_none());
    match &doc.parse_errors[0] {
        ParseIssue::Other { message } => assert_eq!(message, "Duplicate block: route"),
        ParseIssue::Syntax { .. } => panic!("expected another kind of parse error"),
    }
    let diags = diagnostics(&doc);
    assert_eq!(diags.len(), 1);
    assert_eq!(diags[0].range, zero());
    assert_eq!(diags[0].severity, Severity::Error);
    assert_eq!(diags[0].source, "adapto");
    assert_eq!(diags[0].message, "Duplicate block: route");
}

#[test]
fn diagnostics_of_hand_made_errors() {
    let mut doc = DocumentState::new(String::new(), 0);
    doc.parse_errors = vec![
        ParseIssue::Syntax { line: 0, col: 0, message: "a".to_string() },
        ParseIssue::Other { message: "x".to_string() },
        ParseIssue::Syntax { line: 3, col: 9, message: "b".to_string() },
    ];
    doc.compile_errors = vec!["c".to_string()];
    let diags = diagnostics(&doc);
    let got: Vec<(Range, &str)> = diags.iter().map(|d| (d.range, d.message.as_str())).collect();
    assert_eq!(
        got,
        vec![
            (zero(), "a"),
            (zero(), "x"),
            (
                Range {
                    start: Position { line: 2, character: 8 },
                    end: Position { line: 2, character: 9 },
                },
                "b"
            ),
            (zero(), "c"),
        ]
    );
}

#[test]
fn the_empty_document_parses() {
    let doc = DocumentState::new(String::new(), 0);
    let ast = doc.ast.as_ref().unwrap();
    assert!(ast.script.is_none() && ast.route.is_none() && !ast.has_template);
}

#[test]
fn update_reanalyzes() {
    let mut doc = DocumentState::new(UNCLOSED_TAG.to_string(), 1);
    assert!(doc.ast.is_none());
    doc.update(GOOD.to_string(), 2);
    assert_eq!(doc.version, 2);
    assert!(doc.ast.is_some());
    assert!(doc.parse_errors.is_empty());
    assert!(doc.compiled.is_some());
    doc.update(DUPLICATE_STATE.to_string(), 3);
    assert_eq!(doc.compile_errors.len(), 1);
    assert!(doc.compiled.is_none());
    doc.update(UNCLOSED_TAG.to_string(), 4);
    assert!(doc.ast.is_none());
    assert!(doc.compile_errors.is_empty());
    assert_eq!(doc.parse_errors.len(), 1);
}

#[test]
fn update_gives_what_a_fresh_open_gives() {
    let fresh = DocumentState::new(GOOD.to_string(), 2);
    let mut updated = DocumentState::new(DUPLICATE_STATE.to_string(), 1);
    updated.update(GOOD.to_string(), 2);
    assert_eq!(format!("{:?}", fresh.ast), format!("{:?}", updated.ast));
    assert_eq!(fresh.compile_errors, updated.compile_errors);
    assert_eq!(fresh.compiled.is_some(), updated.compiled.is_some());
}

#[test]
fn store_reads_back_what_was_opened() {
    let mut store = DocumentStore::new();
    assert!(store.get("file:///a").is_none());
    store.open("file:///a".to_string(), GOOD.to_string(), 1);
    let doc = store.get("file:///a").unwrap();
    assert_eq!(doc.text, GOOD);
    assert_eq!(doc.version, 1);
    assert!(doc.ast.is_some());
}

#[test]
fn store_change_and_close() {
    let mut store = DocumentStore::default();
    store.open("file:///a".to_string(), GOOD.to_string(), 1);
    store.open("file:///b".to_string(), UNCLOSED_TAG.to_string(), 1);
    store.change("file:///a", DUPLICATE_STATE.to_string(), 2);
    {
        let a = store.get("file:///a").unwrap();
        assert_eq!(a.version, 2);
        assert_eq!(a.compile_errors.len(), 1);
        let b = store.get("file:///b").unwrap();
        assert_eq!(b.version, 1);
        assert!(b.ast.is_none());
    }
    // Changing a document that is not open opens nothing.
    store.change("file:///c", GOOD.to_string(), 5);
    assert!(store.get("file:///c").is_none());
    store.close("file:///a");
    assert!(store.get("file:///a").is_none());
    assert!(store.get("file:///b").is_some());
    // Closing twice is harmless.
    store.close("file:///a");
    assert!(store.get("file:///a").is_none());
}

#[test]
fn reopening_replaces_the_document() {
    let mut store = DocumentStore::new();
    store.open("u".to_string(), GOOD.to_string(), 1);
    store.open("u".to_string(), UNCLOSED_TAG.to_string(), 9);
    let doc = store.get("u").unwrap();
    assert_eq!(doc.version, 9);
    assert!(doc.ast.is_none());
}

#[test]
fn store_reads_the_last_write_after_many_steps() {
    let mut store = DocumentStore::new();
    store.open("u".to_string(), UNCLOSED_TAG.to_string(), 1);
    store.open("v".to_string(), GOOD.to_string(), 1);
    store.change("u", DUPLICATE_STATE.to_string(), 2);
    store.change("v", UNCLOSED_TAG.to_string(), 2);
    store.close("v");
    store.change("u", GOOD.to_string(), 3);
    {
        let doc = store.get("u").unwrap();
        assert_eq!(doc.text, GOOD);
        assert_eq!(doc.version, 3);
        assert!(doc.compiled.is_some());
    }
    store.close("u");
    assert!(store.get("u").is_none());
}

#[test]
fn an_analyzed_document_has_at_most_one_error() {
    for text in [GOOD, DUPLICATE_STATE, UNCLOSED_TAG, DUPLICATE_BLOCK] {
        let doc = DocumentState::new(text.to_string(), 1);
        assert!(doc.parse_errors.len() + doc.compile_errors.len() <= 1);
        assert_eq!(doc.ast.is_some(), doc.parse_errors.is_empty());
        assert_eq!(
            doc.compiled.is_some(),
            doc.parse_errors.is_empty() && doc.compile_errors.is_empty()
        );
        assert_eq!(diagnostics(&doc).len(), doc.parse_errors.len() + doc.compile_errors.len());
    }
}

fn assert_not_parsed(text: &str) {
    assert!(!parse_safe_exec(text));
    let doc = DocumentState::new(text.to_string(), 1);
    assert!(doc.ast.is_none());
    assert!(doc.compiled.is_none());
    assert!(doc.compile_errors.is_empty());
    match &doc.parse_errors[..] {
        [ParseIssue::Other { message }] => assert_eq!(message, NOT_PARSED),
        _ => panic!("expected one not-parsed issue"),
    }
    let diags = diagnostics(&doc);
    assert_eq!(diags.len(), 1);
    assert_eq!(diags[0].range, zero());
    assert_eq!(diags[0].message, NOT_PARSED);
}

#[test]
fn texts_the_parser_cannot_take_are_not_handed_to_it() {
    // A multi-byte character inside a block.
    assert_not_parsed("<template>\u{e9}</template>");
    // A lone quote as a route value.
    assert_not_parsed("<route>\n  path: \"\n</route>\n");
    // A `)` before the `(` of an action declaration.
    assert_not_parsed("<script lang=\"rust\">\n  action f)(x {\n  }\n</script>\n");
    // A stray closing tag in a template.
    assert_not_parsed("<template>\n  </div>\n</template>\n");
    // A `{:else}` outside any `{#if}`.
    assert_not_parsed("<template>\n  {#each xs as x}{:else}{/each}\n</template>\n");
}

#[test]
fn ordinary_documents_are_parsed() {
    for text in [GOOD, DUPLICATE_STATE, UNCLOSED_TAG, DUPLICATE_BLOCK] {
        assert!(parse_safe_exec(text));
    }
    let text = "<template>\n  {#if a}\n    <p class=\"x\">{a}</p>\n  {:else if b}\n    <br/>\n  {:else}\n    <img src=\"y\">\n  {/if}\n  {#match m}\n  {:when 1}\n    <b>one</b>\n  {/match}\n</template>\n";
    assert!(parse_safe_exec(text));
    let doc = DocumentState::new(text.to_string(), 1);
    assert!(doc.ast.as_ref().unwrap().has_template);
}
