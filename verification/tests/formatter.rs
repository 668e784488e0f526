use adapto_lsp::formatter::format_document;
use adapto_lsp::protocol::{Position, Range};

fn range(l1: u32, c1: u32, l2: u32, c2: u32) -> Range {
    Range {
        start: Position { line: l1, character: c1 },
        end: Position { line: l2, character: c2 },
    }
}

#[test]
fn format_indents_nested_elements() {
    let edits = format_document("<template>\n<div>\n<span/>\n</div>\n</template>");
    assert_eq!(edits.len(), 1);
    assert_eq!(
        edits[0].new_text,
        "<template>\n  <div>\n    <span/>\n  </div>\n</template>\n"
    );
    assert_eq!(edits[0].range, range(0, 0, 5, 11));
}

#[test]
fn format_keeps_style_lines_as_they_are() {
    let text = "<style scoped>\n   button {\n  padding: 1px;\n }\n</style>";
    let edits = format_document(text);
    assert_eq!(
        edits[0].new_text,
        "<style scoped>\n   button {\n  padding: 1px;\n }\n</style>\n"
    );
}

#[test]
fn format_keeps_script_lines_as_they_are() {
    let text = "<script lang=\"rust\">\n      state a: i32 = 0\n</script>\n<template>\n<p/>\n</template>";
    let edits = format_document(text);
    assert_eq!(
        edits[0].new_text,
        "<script lang=\"rust\">\n      state a: i32 = 0\n</script>\n<template>\n  <p/>\n</template>\n"
    );
}

#[test]
fn format_puts_branches_one_level_out() {
    let text = "<template>\n{#if a}\n<b/>\n{:else}\n<i/>\n{/if}\n</template>\n";
    let edits = format_document(text);
    assert_eq!(
        edits[0].new_text,
        "<template>\n  {#if a}\n    <b/>\n  {:else}\n    <i/>\n  {/if}\n</template>\n"
    );
    assert_eq!(edits[0].range, range(0, 0, 7, 11));
}

#[test]
fn format_when_and_else_if_branches() {
    let text = "{#match x}\n{:when 1}\n<b/>\n{:else if y}\n{/match}";
    let edits = format_document(text);
    assert_eq!(
        edits[0].new_text,
        "{#match x}\n{:when 1}\n  <b/>\n{:else if y}\n{/match}\n"
    );
}

#[test]
fn format_single_line_element_keeps_the_level() {
    // An element closed on the line that opens it opens no level.
    let edits = format_document("<p>hi</p>\n<b/>");
    assert_eq!(edits[0].new_text, "<p>hi</p>\n<b/>\n");
}

#[test]
fn format_comments_do_not_open_a_level() {
    let edits = format_document("<!-- note -->\n<b/>");
    assert_eq!(edits[0].new_text, "<!-- note -->\n<b/>\n");
}

#[test]
fn format_blank_lines_and_crlf() {
    let edits = format_document("a\r\n  \r\n  b");
    assert_eq!(edits[0].new_text, "a\n\nb\n");
    assert_eq!(edits[0].range, range(0, 0, 3, 3));
}

#[test]
fn format_closing_at_top_level_saturates() {
    let edits = format_document("</x>\n{/if}\n<y/>");
    assert_eq!(edits[0].new_text, "</x>\n{/if}\n<y/>\n");
}

#[test]
fn format_empty_document() {
    let edits = format_document("");
    assert_eq!(edits.len(), 1);
    assert_eq!(edits[0].new_text, "");
    assert_eq!(edits[0].range, range(0, 0, 0, 0));
}

#[test]
fn format_range_counts_bytes_of_last_line() {
    let edits = format_document("x\n  é");
    assert_eq!(edits[0].new_text, "x\né\n");
    // The last line "  é" is 4 bytes long.
    assert_eq!(edits[0].range, range(0, 0, 2, 4));
}

#[test]
fn format_keeps_the_text_of_every_line() {
    let text = "<template>\n   <div>\n\t{#each xs as x}\n  <p>{x}</p>\n {/each}\n</div>\n</template>";
    let out = format_document(text).remove(0).new_text;
    let before: Vec<&str> = text.lines().map(|l| l.trim()).collect();
    let after: Vec<&str> = out.lines().map(|l| l.trim()).collect();
    assert_eq!(before, after);
}

#[test]
fn format_is_idempotent() {
    let text = "<template>\n   <div>\n{#if a}\n<b/>\n  {:else}\n<i/>\n{/if}\n</div>\n</template>\n<style>\n  a { }\n</style>";
    let once = format_document(text).remove(0).new_text;
    let twice = format_document(&once).remove(0).new_text;
    assert_eq!(once, twice);
}

#[test]
fn format_one_line_elements_keep_the_depth() {
    let edits = format_document("<template>\n<p>a</p>\n<p>b</p>\n</template>");
    assert_eq!(edits.len(), 1);
    assert_eq!(edits[0].new_text, "<template>\n  <p>a</p>\n  <p>b</p>\n</template>\n");
}

#[test]
fn format_one_line_control_flow_keeps_the_depth() {
    let edits = format_document("<template>\n{#if a}b{/if}\n<p>c</p>\n</template>");
    assert_eq!(edits[0].new_text, "<template>\n  {#if a}b{/if}\n  <p>c</p>\n</template>\n");
}
