use adapto_lsp::completion::completions;
use adapto_lsp::document::DocumentState;
use adapto_lsp::protocol::{CompletionItem, CompletionKind, Position};

const COUNTER: &str = "<route>\n  path: \"/counter\"\n</route>\n\n<script lang=\"rust\">\n  state count: i32 = 0\n  prop step: i32\n  memo double: i32 = count * 2\n\n  action increment() {\n    count += 1\n  }\n</script>\n\n<template>\n  <button on:click=\"increment\">\n    Count: {count}\n  </button>\n</template>\n\n<style scoped>\n  button {\n    padding: 12px;\n  }\n</style>\n";

fn labels(items: &[CompletionItem]) -> Vec<String> {
    items.iter().map(|i| i.label.clone()).collect()
}

fn at(line: u32, character: u32) -> Position {
    Position { line, character }
}

#[test]
fn completes_blocks_on_an_unfinished_tag() {
    let doc = DocumentState::new("<tem".to_string(), 1);
    let items = completions(&doc, at(0, 4));
    assert_eq!(labels(&items), vec!["route", "script", "template", "style", "resource", "layout"]);
    assert_eq!(items[1].kind, CompletionKind::Snippet);
    assert!(items[1].snippet);
    assert_eq!(items[1].insert_text.as_deref(), Some("<script lang=\"rust\">\n\t$0\n</script>"));
    assert_eq!(items[1].detail.as_deref(), Some("Script block"));
}

#[test]
fn completes_event_modifiers_in_an_event_binding() {
    let doc = DocumentState::new(COUNTER.to_string(), 1);
    let items = completions(&doc, at(15, 20));
    assert_eq!(labels(&items), vec!["prevent", "stop", "debounce", "throttle"]);
    assert_eq!(items[0].kind, CompletionKind::Keyword);
    assert_eq!(items[0].insert_text, None);
    assert!(!items[0].snippet);
    assert_eq!(items[2].insert_text.as_deref(), Some("debounce.${1:300}"));
}

#[test]
fn completes_template_constructs_and_declared_names() {
    let doc = DocumentState::new(COUNTER.to_string(), 1);
    assert!(doc.ast.is_some());
    let items = completions(&doc, at(16, 4));
    assert_eq!(
        labels(&items),
        vec!["if", "if-else", "each", "match", "can", "html", "count", "step", "double", "increment"]
    );
    assert_eq!(items[6].kind, CompletionKind::Variable);
    assert_eq!(items[6].detail.as_deref(), Some("state: i32"));
    assert_eq!(items[7].kind, CompletionKind::Property);
    assert_eq!(items[7].detail.as_deref(), Some("prop: i32"));
    assert_eq!(items[8].detail.as_deref(), Some("memo: i32"));
    assert_eq!(items[9].kind, CompletionKind::Function);
    assert_eq!(items[9].detail.as_deref(), Some("action"));
}

#[test]
fn completes_script_declarations_in_a_script_block() {
    let doc = DocumentState::new(COUNTER.to_string(), 1);
    let items = completions(&doc, at(6, 2));
    assert_eq!(labels(&items), vec!["state", "prop", "memo", "load", "action", "server"]);
    assert_eq!(items[3].insert_text.as_deref(), Some("load async fn $1(ctx: Ctx) {\n\t$0\n}"));
}

#[test]
fn completes_route_attributes_in_a_route_block() {
    let doc = DocumentState::new(COUNTER.to_string(), 1);
    let items = completions(&doc, at(1, 2));
    assert_eq!(
        labels(&items),
        vec!["path", "method", "layout", "auth", "permission", "tenant", "cache"]
    );
    assert_eq!(items[1].detail.as_deref(), Some("HTTP method (get, post, put, delete)"));
}

#[test]
fn completes_resource_declarations_in_a_resource_block() {
    let doc = DocumentState::new("<resource name=\"C\" table=\"c\">\n  \n</resource>".to_string(), 1);
    let items = completions(&doc, at(1, 2));
    assert_eq!(labels(&items), vec!["field", "permission", "tenant", "primary_key"]);
    assert_eq!(
        items[0].insert_text.as_deref(),
        Some("field $1: $2 ${3|@required,@optional,@unique,@searchable|}")
    );
}

#[test]
fn offers_nothing_outside_blocks() {
    let doc = DocumentState::new(COUNTER.to_string(), 1);
    assert!(!completions(&doc, at(0, 0)).is_empty());
    let doc = DocumentState::new("hello\n<route>\n</route>".to_string(), 1);
    assert!(completions(&doc, at(0, 2)).is_empty());
}

#[test]
fn past_the_last_line_the_search_starts_at_the_last_line() {
    // The last line closes the style block, so the cursor is past every block.
    let doc = DocumentState::new(COUNTER.to_string(), 1);
    assert!(completions(&doc, at(100, 0)).is_empty());
    // Inside the template, the constructs and the declared names are offered.
    let items = completions(&doc, at(16, 4));
    assert_eq!(labels(&items)[0], "if");
}

#[test]
fn template_without_parse_offers_constructs_only() {
    let doc = DocumentState::new("<template>\n  <p>\n<route \n".to_string(), 1);
    assert!(doc.ast.is_none());
    let items = completions(&doc, at(1, 3));
    assert_eq!(labels(&items), vec!["if", "if-else", "each", "match", "can", "html"]);
}

#[test]
fn no_template_items_in_a_style_block_after_a_template() {
    let doc = DocumentState::new("<template>\n</template>\n<style scoped>\n  ".to_string(), 1);
    let items = completions(&doc, at(3, 2));
    let names = labels(&items);
    assert!(!names.iter().any(|l| l == "if" || l == "each" || l == "html"));
    assert!(items.is_empty());
}

#[test]
fn no_items_between_blocks() {
    let doc = DocumentState::new("<script lang=\"rust\">\n</script>\n\n".to_string(), 1);
    assert!(completions(&doc, at(2, 0)).is_empty());
}

#[test]
fn element_closing_tags_inside_a_template_keep_the_template() {
    let doc = DocumentState::new("<template>\n  <div>\n  </div>\n  \n</template>\n".to_string(), 1);
    let names = labels(&completions(&doc, at(3, 2)));
    assert!(names.iter().any(|l| l == "if"));
}

#[test]
fn inner_elements_named_like_blocks_keep_the_template() {
    let doc = DocumentState::new("<template>\n  <styled-box>\n  </styled-box>\n  \n</template>".to_string(), 1);
    let names = labels(&completions(&doc, at(3, 2)));
    assert_eq!(&names[..6], &["if", "if-else", "each", "match", "can", "html"]);
    let doc = DocumentState::new("<template>\n</styled>\n".to_string(), 1);
    let names = labels(&completions(&doc, at(2, 0)));
    assert!(names.iter().any(|l| l == "if"));
}
