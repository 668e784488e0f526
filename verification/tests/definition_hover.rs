use adapto_lsp::definition::goto_definition;
use adapto_lsp::document::DocumentState;
use adapto_lsp::hover::{hover_info, ROUTE_DOC, STATE_DOC};
use adapto_lsp::protocol::{Position, Range};

const PAGE: &str = "<route>\n  path: \"/customers\"\n</route>\n<script lang=\"rust\">\n  state count: i32 = 0\n  state secret api_key: String\n  prop id: Uuid\n  memo total: i32 = count + 1\n  load async fn load_customer(ctx: Ctx) {\n  }\n  #[permission(\"customers.delete\")]\n  action async fn delete(id: Uuid, ctx: Ctx) {\n  }\n  server async fn fetch_all(ctx: Ctx) {\n  }\n</script>\n<template>\n  <p>{count} {total} {id}</p>\n  <button on:click=\"delete\">x</button>\n</template>\nx x\n";

fn at(line: u32, character: u32) -> Position {
    Position { line, character }
}

fn whole_line(line: u32, len: u32) -> Range {
    Range {
        start: Position { line, character: 0 },
        end: Position { line, character: len },
    }
}

fn page() -> DocumentState {
    let doc = DocumentState::new(PAGE.to_string(), 3);
    assert!(doc.ast.is_some());
    doc
}

#[test]
fn definition_of_a_state_is_its_declaration() {
    let doc = page();
    // `{count}` on line 17, the cursor on its `o`.
    let loc = goto_definition(&doc, at(17, 7), "file:///a.adapto").unwrap();
    assert_eq!(loc.uri, "file:///a.adapto");
    assert_eq!(loc.range, whole_line(4, 22));
}

#[test]
fn definition_of_a_prop_and_a_memo() {
    let doc = page();
    let loc = goto_definition(&doc, at(17, 22), "u").unwrap();
    assert_eq!(loc.range, whole_line(6, 15));
    let loc = goto_definition(&doc, at(17, 14), "u").unwrap();
    assert_eq!(loc.range, whole_line(7, 29));
}

#[test]
fn definition_of_an_action_is_its_fn_line() {
    let doc = page();
    let loc = goto_definition(&doc, at(18, 22), "u").unwrap();
    assert_eq!(loc.range, whole_line(11, 46));
}

#[test]
fn definition_of_a_loader_and_a_server_function() {
    let doc = page();
    let loc = goto_definition(&doc, at(8, 20), "u").unwrap();
    assert_eq!(loc.range, whole_line(8, 41));
    let loc = goto_definition(&doc, at(13, 20), "u").unwrap();
    assert_eq!(loc.range, whole_line(13, 39));
}

#[test]
fn no_definition_without_a_word_or_a_declaration() {
    let doc = page();
    // On a space after a `}`.
    assert!(goto_definition(&doc, at(17, 12), "u").is_none());
    // Past the end of the line, and past the last line.
    assert!(goto_definition(&doc, at(17, 500), "u").is_none());
    assert!(goto_definition(&doc, at(500, 0), "u").is_none());
    // `button` is declared nowhere.
    assert!(goto_definition(&doc, at(18, 4), "u").is_none());
    // After the blocks, `x` is declared nowhere.
    assert!(goto_definition(&doc, at(20, 0), "u").is_none());
    assert!(hover_info(&doc, at(20, 0)).is_none());
}

#[test]
fn inside_a_two_byte_character_there_is_no_word() {
    let doc = DocumentState::new("<template>\n</template>\nstate x: i32\n\u{e9} x\n".to_string(), 1);
    assert!(goto_definition(&doc, at(3, 1), "u").is_none());
    assert!(hover_info(&doc, at(3, 1)).is_none());
}

#[test]
fn no_definition_in_a_document_that_does_not_parse() {
    let doc = DocumentState::new("<route \nstate a: i32\n{a}".to_string(), 1);
    assert!(doc.ast.is_none());
    assert!(goto_definition(&doc, at(2, 1), "u").is_none());
}

#[test]
fn word_ending_at_the_cursor_counts() {
    let doc = page();
    // The cursor just after `count`, on the `}`.
    let loc = goto_definition(&doc, at(17, 11), "u").unwrap();
    assert_eq!(loc.range, whole_line(4, 22));
}

#[test]
fn hover_on_a_keyword_shows_its_documentation() {
    let doc = page();
    let h = hover_info(&doc, at(0, 3)).unwrap();
    assert_eq!(h.markdown, ROUTE_DOC);
    let h = hover_info(&doc, at(4, 3)).unwrap();
    assert_eq!(h.markdown, STATE_DOC);
}

#[test]
fn hover_on_a_state_shows_its_type_and_default() {
    let doc = page();
    let h = hover_info(&doc, at(17, 7)).unwrap();
    assert_eq!(h.markdown, "**state** `count: i32` = `0`");
}

#[test]
fn hover_on_a_secret_state_warns() {
    let doc = page();
    let h = hover_info(&doc, at(5, 17)).unwrap();
    assert_eq!(
        h.markdown,
        "**state** `api_key: String`\n\nSecret \u{2014} cannot be rendered in template"
    );
}

#[test]
fn hover_on_a_prop_and_a_memo() {
    let doc = page();
    assert_eq!(hover_info(&doc, at(17, 22)).unwrap().markdown, "**prop** `id: Uuid`");
    assert_eq!(
        hover_info(&doc, at(17, 14)).unwrap().markdown,
        "**memo** `total: i32` = `count + 1`"
    );
}

#[test]
fn hover_on_an_action_shows_params_permission_and_async() {
    let doc = page();
    assert_eq!(
        hover_info(&doc, at(18, 22)).unwrap().markdown,
        "**action** `delete(id: Uuid, ctx: Ctx)`\n\nPermission: `customers.delete`\n\nasync"
    );
}

#[test]
fn no_hover_on_unknown_words() {
    let doc = page();
    assert!(hover_info(&doc, at(18, 4)).is_none());
    assert!(hover_info(&doc, at(18, 200)).is_none());
    assert!(hover_info(&doc, at(99, 0)).is_none());
}

#[test]
fn keyword_hover_works_without_a_parse() {
    let doc = DocumentState::new("<route \n".to_string(), 1);
    assert!(doc.ast.is_none());
    assert_eq!(hover_info(&doc, at(0, 2)).unwrap().markdown, ROUTE_DOC);
}

#[test]
fn definition_needs_the_whole_name() {
    let text = "<script lang=\"rust\">\n  state counter: i32 = 0\n  state count: i32 = 0\n</script>\n<template>\n  <p>{count}</p>\n</template>\n";
    let doc = DocumentState::new(text.to_string(), 1);
    assert!(doc.ast.as_ref().unwrap().script.is_some());
    let loc = goto_definition(&doc, at(5, 7), "file:///c.adapto").unwrap();
    assert_eq!(loc.range, whole_line(2, 22));
    let loc = goto_definition(&doc, at(1, 9), "file:///c.adapto").unwrap();
    assert_eq!(loc.range, whole_line(1, 24));
}
