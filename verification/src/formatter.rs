//! Whole-document formatting: every line is re-indented by two spaces per
//! open element or control-flow block, except inside `<style>` and
//! `<script>` blocks, whose lines are kept as they are.
use vstd::prelude::*;
use crate::protocol::{make_range, span, Range, TextEdit};
use crate::text::{
    byte_len, byte_len_u32, chars_of, contains, contains_exec, ends_with, eq_chars, has_prefix, has_suffix, is_ws,
    lemma_lines_no_newline, lemma_scan_append_line, lemma_trim_ends, lemma_trim_of_trimmed,
    lemma_trim_start_leading_ws, lemma_trim_strip_cr, lines_of, lines_view, no_newline, push_all,
    scan_lines, spaces, split_lines, starts_with, string_of, strip_cr, trim, trim_end, trim_start,
    trimmed,
    u32_of,
};

verus! {

/// What the formatter carries from one line to the next.
pub struct FmtState {
    pub indent: nat,
    pub in_style: bool,
    pub in_script: bool,
}

pub open spec fn start_state() -> FmtState {
    FmtState { indent: 0, in_style: false, in_script: false }
}

/// `indent.saturating_sub(1)`.
pub open spec fn dec(n: nat) -> nat {
    if n > 0 {
        (n - 1) as nat
    } else {
        0
    }
}

/// The line closes a block: `</...` or `{/...`.
pub open spec fn closes_block(t: Seq<char>) -> bool {
    starts_with(t, "</"@) || starts_with(t, "{/"@)
}

/// The line is an `{:else}`, `{:else ...}` or `{:when ...}` branch, printed one level out.
pub open spec fn is_branch(t: Seq<char>) -> bool {
    t == "{:else}"@ || starts_with(t, "{:else "@) || starts_with(t, "{:when "@)
}

/// The line opens a block: an opening tag that is neither a closing tag, nor
/// self-closing, nor the end of a comment, nor closed again on the same line
/// (`<p>a</p>`); or a `{#...` control-flow opener not closed again on the
/// same line (`{#if a}b{/if}`).
pub open spec fn opens_block(t: Seq<char>) -> bool {
    ||| starts_with(t, "<"@) && !starts_with(t, "</"@) && !ends_with(t, "/>"@) && !ends_with(
        t,
        "-->"@,
    ) && !contains(t, "</"@)
    ||| starts_with(t, "{#"@) && !contains(t, "{/"@)
}

/// One line: the state after it, and the text it is printed as (with its `'\n'`).
pub open spec fn fmt_line(st: FmtState, line: Seq<char>) -> (FmtState, Seq<char>) {
    let t = trim(line);
    if t.len() == 0 {
        (st, seq!['\n'])
    } else {
        let in_style = if starts_with(t, "</style>"@) {
            false
        } else {
            st.in_style
        };
        let in_script = if starts_with(t, "</script>"@) {
            false
        } else {
            st.in_script
        };
        if in_style || in_script {
            (FmtState { indent: st.indent, in_style, in_script }, line.push('\n'))
        } else {
            let indent = if closes_block(t) {
                dec(st.indent)
            } else {
                st.indent
            };
            let depth = if is_branch(t) {
                dec(indent)
            } else {
                indent
            };
            let printed = spaces(2 * depth) + t + seq!['\n'];
            let next_indent = if opens_block(t) {
                indent + 1
            } else {
                indent
            };
            let next_style = if starts_with(t, "<style"@) {
                true
            } else {
                in_style
            };
            let next_script = if starts_with(t, "<script"@) {
                true
            } else {
                in_script
            };
            (
                FmtState { indent: next_indent, in_style: next_style, in_script: next_script },
                printed,
            )
        }
    }
}

/// The lines in order, from the start state: the final state and the printed text.
pub open spec fn fmt_lines(lines: Seq<Seq<char>>) -> (FmtState, Seq<char>)
    decreases lines.len(),
{
    if lines.len() == 0 {
        (start_state(), Seq::empty())
    } else {
        let (st, out) = fmt_lines(lines.drop_last());
        let (st2, piece) = fmt_line(st, lines.last());
        (st2, out + piece)
    }
}

/// The formatted text of a document.
pub open spec fn formatted(text: Seq<char>) -> Seq<char> {
    fmt_lines(lines_of(text)).1
}

/// The byte length of the last line, or 0 for a text without lines.
pub open spec fn last_line_bytes(text: Seq<char>) -> nat {
    let lines = lines_of(text);
    if lines.len() > 0 {
        byte_len(lines.last())
    } else {
        0
    }
}

/// The range the formatting edit replaces: from the start of the document
/// to (number of lines, byte length of the last line), each truncated to 32 bits.
pub open spec fn whole_range(text: Seq<char>) -> Range {
    span(0, 0, u32_of(lines_of(text).len() as int), u32_of(last_line_bytes(text) as int))
}

proof fn lemma_fmt_indent_bound(lines: Seq<Seq<char>>)
    ensures
        fmt_lines(lines).0.indent <= lines.len(),
    decreases lines.len(),
{
    if lines.len() > 0 {
        lemma_fmt_indent_bound(lines.drop_last());
    }
}

fn push_spaces(out: &mut Vec<char>, depth: usize)
    ensures
        final(out)@ == old(out)@ + spaces(2 * depth as nat),
{
    let mut j: usize = 0;
    while j < depth
        invariant
            j <= depth,
            out@ == old(out)@ + spaces(2 * j as nat),
        decreases depth - j,
    {
        out.push(' ');
        out.push(' ');
        j = j + 1;
        assert(out@ =~= old(out)@ + spaces(2 * j as nat));
    }
}

/// Formats the whole document: one edit that replaces the document with its
/// re-indented text.
pub fn format_document(text: &str) -> (r: Vec<TextEdit>)
    ensures
        r.len() == 1,
        r[0].range == whole_range(text@),
        r[0].new_text@ == formatted(text@),
{
    let chars = chars_of(text);
    let lines = split_lines(&chars);
    let close_style = chars_of("</style>");
    let close_script = chars_of("</script>");
    let close_tag = chars_of("</");
    let close_flow = chars_of("{/");
    let else_full = chars_of("{:else}");
    let else_if = chars_of("{:else ");
    let when_branch = chars_of("{:when ");
    let open_tag = chars_of("<");
    let self_closing = chars_of("/>");
    let comment_end = chars_of("-->");
    let open_flow = chars_of("{#");
    let open_style = chars_of("<style");
    let open_script = chars_of("<script");

    let ghost all = lines_view(lines@);
    let mut out: Vec<char> = Vec::new();
    let mut indent: usize = 0;
    let mut in_style = false;
    let mut in_script = false;
    let mut i: usize = 0;
    while i < lines.len()
        invariant
            all == lines_view(lines@),
            all == lines_of(text@),
            i <= lines.len(),
            indent <= i,
            fmt_lines(all.take(i as int)) == (
            FmtState { indent: indent as nat, in_style, in_script },
            out@,
            ),
            close_style@ == "</style>"@,
            close_script@ == "</script>"@,
            close_tag@ == "</"@,
            close_flow@ == "{/"@,
            else_full@ == "{:else}"@,
            else_if@ == "{:else "@,
            when_branch@ == "{:when "@,
            open_tag@ == "<"@,
            self_closing@ == "/>"@,
            comment_end@ == "-->"@,
            open_flow@ == "{#"@,
            open_style@ == "<style"@,
            open_script@ == "<script"@,
        decreases lines.len() - i,
    {
        let line = &lines[i];
        proof {
            assert(all.take(i + 1).drop_last() =~= all.take(i as int));
            assert(all.take(i + 1).last() == line@);
        }
        let t = trimmed(line);
        if t.len() == 0 {
            out.push('\n');
        } else {
            if has_prefix(&t, &close_style) {
                in_style = false;
            }
            if has_prefix(&t, &close_script) {
                in_script = false;
            }
            if in_style || in_script {
                push_all(&mut out, line);
                out.push('\n');
            } else {
                if has_prefix(&t, &close_tag) || has_prefix(&t, &close_flow) {
                    indent = if indent > 0 {
                        indent - 1
                    } else {
                        0
                    };
                }
                let depth = if eq_chars(&t, &else_full) || has_prefix(&t, &else_if) || has_prefix(
                    &t,
                    &when_branch,
                ) {
                    if indent > 0 {
                        indent - 1
                    } else {
                        0
                    }
                } else {
                    indent
                };
                push_spaces(&mut out, depth);
                push_all(&mut out, &t);
                out.push('\n');
                if (has_prefix(&t, &open_tag) && !has_prefix(&t, &close_tag) && !has_suffix(
                    &t,
                    &self_closing,
                ) && !has_suffix(&t, &comment_end) && !contains_exec(&t, &close_tag)) || (
                has_prefix(&t, &open_flow) && !contains_exec(&t, &close_flow)) {
                    indent = indent + 1;
                }
                if has_prefix(&t, &open_style) {
                    in_style = true;
                }
                if has_prefix(&t, &open_script) {
                    in_script = true;
                }
            }
        }
        i = i + 1;
    }
    proof {
        assert(all.take(lines.len() as int) =~= all);
    }
    let count = (lines.len() as u64 % 0x1_0000_0000) as u32;
    let last_len = if lines.len() > 0 {
        let last = &lines[lines.len() - 1];
        byte_len_u32(last, 0, last.len())
    } else {
        0
    };
    proof {
        if lines.len() > 0 {
            assert(lines[lines.len() - 1]@.subrange(0, lines[lines.len() - 1]@.len() as int)
                =~= all.last());
        }
    }
    let new_text = string_of(&out);
    vec![TextEdit { range: make_range(0, 0, count, last_len), new_text }]
}

/// What a line is printed as ends with its line feed; before it stands a text
/// without line feeds whose trimmed form is the line's.
proof fn lemma_fmt_line_piece(st: FmtState, line: Seq<char>)
    requires
        no_newline(line),
    ensures
        fmt_line(st, line).1.len() > 0,
        fmt_line(st, line).1.last() == '\n',
        no_newline(fmt_line(st, line).1.drop_last()),
        trim(strip_cr(fmt_line(st, line).1.drop_last())) == trim(line),
{
    let piece = fmt_line(st, line).1;
    let body = piece.drop_last();
    let t = trim(line);
    lemma_trim_ends(line);
    if t.len() == 0 {
        assert(body =~= Seq::<char>::empty());
        lemma_trim_strip_cr(body);
        assert(trim(body) =~= Seq::<char>::empty());
    } else {
        let in_style = if starts_with(t, "</style>"@) {
            false
        } else {
            st.in_style
        };
        let in_script = if starts_with(t, "</script>"@) {
            false
        } else {
            st.in_script
        };
        if in_style || in_script {
            assert(body =~= line);
            lemma_trim_strip_cr(line);
        } else {
            let indent = if closes_block(t) {
                dec(st.indent)
            } else {
                st.indent
            };
            let depth = if is_branch(t) {
                dec(indent)
            } else {
                indent
            };
            let w = spaces(2 * depth);
            assert(body =~= w + t);
            assert forall|k: int| 0 <= k < body.len() implies #[trigger] body[k] != '\n' by {
                if k < w.len() {
                    assert(body[k] == ' ');
                } else {
                    assert(body[k] == t[k - w.len()]);
                }
            }
            lemma_trim_strip_cr(body);
            assert forall|k: int| 0 <= k < w.len() implies is_ws(#[trigger] w[k]) by {}
            lemma_trim_start_leading_ws(w, t);
            lemma_trim_of_trimmed(t);
            assert(trim(body) == trim_end(trim_start(t)));
        }
    }
}

/// Reading the formatted text line by line gives one line per input line,
/// each with that input line's trimmed text.
proof fn lemma_fmt_scan(lines: Seq<Seq<char>>)
    requires
        forall|i: int| 0 <= i < lines.len() ==> no_newline(#[trigger] lines[i]),
    ensures
        scan_lines(fmt_lines(lines).1).1 == Seq::<char>::empty(),
        scan_lines(fmt_lines(lines).1).0.len() == lines.len(),
        forall|i: int|
            0 <= i < lines.len() ==> trim(#[trigger] scan_lines(fmt_lines(lines).1).0[i]) == trim(
                lines[i],
            ),
    decreases lines.len(),
{
    if lines.len() == 0 {
        assert(scan_lines(Seq::<char>::empty()) == (Seq::<Seq<char>>::empty(), Seq::<char>::empty()));
    } else {
        let prev = lines.drop_last();
        assert forall|i: int| 0 <= i < prev.len() implies no_newline(#[trigger] prev[i]) by {
            assert(prev[i] == lines[i]);
        }
        lemma_fmt_scan(prev);
        let (st, out) = fmt_lines(prev);
        let piece = fmt_line(st, lines.last()).1;
        lemma_fmt_line_piece(st, lines.last());
        let body = piece.drop_last();
        lemma_scan_append_line(out, body);
        let (d, c) = scan_lines(out);
        assert(c + body =~= body);
        assert(out + piece =~= (out + body).push('\n'));
        let whole = (out + body).push('\n');
        assert(whole.drop_last() =~= out + body);
        assert(scan_lines(whole) == (d.push(strip_cr(body)), Seq::<char>::empty()));
        assert(fmt_lines(lines).1 == out + piece);
        assert forall|i: int|
            0 <= i < lines.len() implies trim(#[trigger] scan_lines(fmt_lines(lines).1).0[i])
            == trim(lines[i]) by {
            if i < prev.len() {
                assert(scan_lines(fmt_lines(lines).1).0[i] == d[i]);
                assert(prev[i] == lines[i]);
            } else {
                assert(scan_lines(fmt_lines(lines).1).0[i] == strip_cr(body));
            }
        }
    }
}

/// Formatting changes only the whitespace around the text of each line: the
/// formatted document has as many lines as the input, and each of its
/// lines, trimmed, is the input line, trimmed.
pub proof fn law_format_keeps_line_text(text: Seq<char>)
    ensures
        lines_of(formatted(text)).len() == lines_of(text).len(),
        forall|i: int|
            0 <= i < lines_of(text).len() ==> trim(#[trigger] lines_of(formatted(text))[i]) == trim(
                lines_of(text)[i],
            ),
{
    lemma_lines_no_newline(text);
    lemma_fmt_scan(lines_of(text));
}

/// The state the formatter is in when it reaches line `i`.
pub open spec fn state_before(lines: Seq<Seq<char>>, i: int) -> FmtState {
    fmt_lines(lines.take(i)).0
}

/// The line is printed as it stands: it is not blank and the formatter is
/// (still) inside a style or script block.
pub open spec fn kept_raw(st: FmtState, line: Seq<char>) -> bool {
    let t = trim(line);
    &&& t.len() > 0
    &&& (if starts_with(t, "</style>"@) {
        false
    } else {
        st.in_style
    }) || (if starts_with(t, "</script>"@) {
        false
    } else {
        st.in_script
    })
}

/// Line `i` as the formatted text holds it.
pub open spec fn printed_line(lines: Seq<Seq<char>>, i: int) -> Seq<char> {
    strip_cr(fmt_line(state_before(lines, i), lines[i]).1.drop_last())
}

proof fn lemma_fmt_scan_exact(lines: Seq<Seq<char>>)
    requires
        forall|i: int| 0 <= i < lines.len() ==> no_newline(#[trigger] lines[i]),
    ensures
        scan_lines(fmt_lines(lines).1).1 == Seq::<char>::empty(),
        scan_lines(fmt_lines(lines).1).0 == Seq::new(lines.len(), |i: int| printed_line(lines, i)),
    decreases lines.len(),
{
    if lines.len() == 0 {
        assert(scan_lines(Seq::<char>::empty()) == (Seq::<Seq<char>>::empty(), Seq::<char>::empty()));
        assert(Seq::new(0, |i: int| printed_line(lines, i)) =~= Seq::<Seq<char>>::empty());
    } else {
        let prev = lines.drop_last();
        assert forall|i: int| 0 <= i < prev.len() implies no_newline(#[trigger] prev[i]) by {
            assert(prev[i] == lines[i]);
        }
        lemma_fmt_scan_exact(prev);
        let (st, out) = fmt_lines(prev);
        let piece = fmt_line(st, lines.last()).1;
        lemma_fmt_line_piece(st, lines.last());
        let body = piece.drop_last();
        lemma_scan_append_line(out, body);
        let (d, c) = scan_lines(out);
        assert(c + body =~= body);
        assert(out + piece =~= (out + body).push('\n'));
        let whole = (out + body).push('\n');
        assert(whole.drop_last() =~= out + body);
        assert(scan_lines(whole) == (d.push(strip_cr(body)), Seq::<char>::empty()));
        assert(lines.take(lines.len() - 1) =~= prev);
        assert forall|i: int| 0 <= i < prev.len() implies printed_line(prev, i) == printed_line(lines, i) by {
            assert(prev.take(i) =~= lines.take(i));
            assert(prev[i] == lines[i]);
        }
        assert(d.push(strip_cr(body)) =~= Seq::new(lines.len(), |i: int| printed_line(lines, i)));
    }
}

proof fn lemma_fmt_line_same(st: FmtState, a: Seq<char>, b: Seq<char>)
    requires
        trim(a) == trim(b),
        kept_raw(st, a) ==> a == b,
    ensures
        fmt_line(st, a) == fmt_line(st, b),
{
}

/// Formatting a formatted document changes nothing, unless a line that is
/// kept as it stands (inside a style or script block) ends with a carriage
/// return: reading the formatted text drops that `'\r'` before its line feed.
pub proof fn law_format_idempotent(text: Seq<char>)
    requires
        forall|i: int|
            0 <= i < lines_of(text).len() && kept_raw(
                state_before(lines_of(text), i),
                #[trigger] lines_of(text)[i],
            ) ==> !(lines_of(text)[i].len() > 0 && lines_of(text)[i].last() == '\r'),
    ensures
        formatted(formatted(text)) == formatted(text),
{
    let l1 = lines_of(text);
    lemma_lines_no_newline(text);
    lemma_fmt_scan_exact(l1);
    let l2 = lines_of(formatted(text));
    assert(l2 == Seq::new(l1.len(), |i: int| printed_line(l1, i)));
    assert forall|k: int| 0 <= k <= l1.len() implies fmt_lines(#[trigger] l2.take(k)) == fmt_lines(
        l1.take(k),
    ) by {
        lemma_fmt_prefix_same(l1, l2, k);
    }
    assert(l2.take(l1.len() as int) =~= l2);
    assert(l1.take(l1.len() as int) =~= l1);
}

proof fn lemma_fmt_prefix_same(l1: Seq<Seq<char>>, l2: Seq<Seq<char>>, k: int)
    requires
        forall|i: int| 0 <= i < l1.len() ==> no_newline(#[trigger] l1[i]),
        forall|i: int|
            0 <= i < l1.len() && kept_raw(state_before(l1, i), #[trigger] l1[i]) ==> !(l1[i].len() > 0
                && l1[i].last() == '\r'),
        l2 == Seq::new(l1.len(), |i: int| printed_line(l1, i)),
        0 <= k <= l1.len(),
    ensures
        fmt_lines(l2.take(k)) == fmt_lines(l1.take(k)),
    decreases k,
{
    if k > 0 {
        lemma_fmt_prefix_same(l1, l2, k - 1);
        assert(l2.take(k).drop_last() =~= l2.take(k - 1));
        assert(l1.take(k).drop_last() =~= l1.take(k - 1));
        let i = k - 1;
        let st = state_before(l1, i);
        lemma_fmt_line_piece(st, l1[i]);
        lemma_trim_strip_cr(fmt_line(st, l1[i]).1.drop_last());
        assert(l2[i] == printed_line(l1, i));
        if kept_raw(st, l1[i]) {
            assert(fmt_line(st, l1[i]).1.drop_last() =~= l1[i]);
        }
        lemma_fmt_line_same(st, l1[i], l2[i]);
    }
}


proof fn lemma_no_block_state(lines: Seq<Seq<char>>, k: int)
    requires
        0 <= k <= lines.len(),
        forall|j: int|
            0 <= j < k ==> !starts_with(trim(#[trigger] lines[j]), "<style"@) && !starts_with(
                trim(lines[j]),
                "<script"@,
            ),
    ensures
        !state_before(lines, k).in_style,
        !state_before(lines, k).in_script,
    decreases k,
{
    if k > 0 {
        lemma_no_block_state(lines, k - 1);
        assert(lines.take(k).drop_last() =~= lines.take(k - 1));
        assert(lines.take(k).last() == lines[k - 1]);
    }
}

/// Control-flow blocks nest: the line after a `{#...}` opener (one not
/// closed on its own line) is printed one level (two spaces) deeper than the
/// opener, and a `{/...}` closer right after it at the opener's level, for
/// `{#if}`, `{#each}`, `{#match}` and `{#can}` alike (outside style and
/// script blocks).
pub proof fn law_flow_block_indents(text: Seq<char>, k: int)
    requires
        0 <= k,
        k + 1 < lines_of(text).len(),
        forall|j: int|
            0 <= j <= k ==> !starts_with(trim(#[trigger] lines_of(text)[j]), "<style"@)
                && !starts_with(trim(lines_of(text)[j]), "<script"@),
        starts_with(trim(lines_of(text)[k]), "{#"@),
        !contains(trim(lines_of(text)[k]), "{/"@),
        trim(lines_of(text)[k + 1]).len() > 0,
        starts_with(trim(lines_of(text)[k + 1]), "{/"@) || (!starts_with(
            trim(lines_of(text)[k + 1]),
            "</"@,
        ) && !starts_with(trim(lines_of(text)[k + 1]), "{:"@)),
    ensures
        exists|d: nat|
            #![trigger spaces(2 * d)]
            lines_of(formatted(text))[k] == spaces(2 * d) + trim(lines_of(text)[k])
                && lines_of(formatted(text))[k + 1] == spaces(
                if starts_with(trim(lines_of(text)[k + 1]), "{/"@) {
                    2 * d
                } else {
                    2 * d + 2
                },
            ) + trim(lines_of(text)[k + 1]),
{
    reveal_strlit("{#");
    reveal_strlit("{/");
    reveal_strlit("</");
    reveal_strlit("{:");
    reveal_strlit("<");
    reveal_strlit("{:else}");
    reveal_strlit("{:else ");
    reveal_strlit("{:when ");
    reveal_strlit("<style");
    reveal_strlit("<script");
    reveal_strlit("</style>");
    reveal_strlit("</script>");
    let lines = lines_of(text);
    lemma_lines_no_newline(text);
    lemma_fmt_scan_exact(lines);
    lemma_no_block_state(lines, k);
    lemma_no_block_state(lines, k + 1);
    let st = state_before(lines, k);
    let t = trim(lines[k]);
    let u = trim(lines[k + 1]);
    lemma_trim_ends(lines[k]);
    lemma_trim_ends(lines[k + 1]);
    let d = st.indent;
    assert(t.take(2) == "{#"@);
    assert(t.take(2)[0] == t[0] && t.take(2)[1] == t[1]);
    assert(t[0] == '{' && t[1] == '#');
    assert(!starts_with(t, "</"@) && !starts_with(t, "{/"@)) by {
        assert(t.take(2)[1] == '#');
    }
    assert(!is_branch(t)) by {
        if t == "{:else}"@ {
            assert(t[1] == ':');
        }
        if starts_with(t, "{:else "@) {
            assert(t.take(7)[1] == t[1]);
        }
        if starts_with(t, "{:when "@) {
            assert(t.take(7)[1] == t[1]);
        }
    }
    assert(!starts_with(t, "</style>"@)) by {
        if starts_with(t, "</style>"@) {
            assert(t.take(8)[0] == t[0]);
        }
    }
    assert(!starts_with(t, "</script>"@)) by {
        if starts_with(t, "</script>"@) {
            assert(t.take(9)[0] == t[0]);
        }
    }
    assert(!starts_with(t, "<"@)) by {
        if starts_with(t, "<"@) {
            assert(t.take(1)[0] == t[0]);
        }
    }
    assert(opens_block(t));
    let piece = fmt_line(st, lines[k]).1;
    assert(piece == spaces(2 * d) + t + seq!['\n']);
    assert(piece.drop_last() =~= spaces(2 * d) + t);
    assert(strip_cr(spaces(2 * d) + t) == spaces(2 * d) + t) by {
        assert((spaces(2 * d) + t).last() == t.last());
    }
    assert(lines.take(k + 1).drop_last() =~= lines.take(k));
    assert(lines.take(k + 1).last() == lines[k]);
    let st2 = state_before(lines, k + 1);
    assert(st2.indent == d + 1);
    // The next line.
    assert(!starts_with(u, "</style>"@)) by {
        if starts_with(u, "</style>"@) {
            assert(u.take(8)[0] == u[0] && u.take(8)[1] == u[1]);
            assert(u[0] == '<' && u[1] == '/');
            assert(u.take(2) =~= "</"@);
            if starts_with(u, "{/"@) {
                assert(u.take(2)[0] == u[0]);
            }
        }
    }
    assert(!starts_with(u, "</script>"@)) by {
        if starts_with(u, "</script>"@) {
            assert(u.take(9)[0] == u[0] && u.take(9)[1] == u[1]);
            assert(u[0] == '<' && u[1] == '/');
            assert(u.take(2) =~= "</"@);
            if starts_with(u, "{/"@) {
                assert(u.take(2)[0] == u[0]);
            }
        }
    }
    if starts_with(u, "{/"@) {
        assert(closes_block(u));
        assert(!is_branch(u)) by {
            assert(u.take(2)[1] == u[1]);
            if u == "{:else}"@ {
                assert(u[1] == ':');
            }
            if starts_with(u, "{:else "@) {
                assert(u.take(7)[1] == u[1]);
            }
            if starts_with(u, "{:when "@) {
                assert(u.take(7)[1] == u[1]);
            }
        }
        assert(fmt_line(st2, lines[k + 1]).1 == spaces(2 * d) + u + seq!['\n']);
    } else {
        assert(!closes_block(u));
        assert(!is_branch(u)) by {
            if u == "{:else}"@ {
                assert(u.take(2) =~= "{:"@);
            }
            if starts_with(u, "{:else "@) {
                assert(u.take(7).take(2) =~= u.take(2));
                assert(u.take(2) =~= "{:"@);
            }
            if starts_with(u, "{:when "@) {
                assert(u.take(7).take(2) =~= u.take(2));
                assert(u.take(2) =~= "{:"@);
            }
        }
        assert(fmt_line(st2, lines[k + 1]).1 == spaces(2 * (d + 1)) + u + seq!['\n']);
    }
    let piece2 = fmt_line(st2, lines[k + 1]).1;
    let dd: nat = if starts_with(u, "{/"@) {
        2 * d
    } else {
        2 * d + 2
    };
    assert(piece2 == spaces(dd) + u + seq!['\n']);
    assert(piece2.drop_last() =~= spaces(dd) + u);
    assert(strip_cr(spaces(dd) + u) == spaces(dd) + u) by {
        assert((spaces(dd) + u).last() == u.last());
    }
    assert(lines_of(formatted(text))[k] == printed_line(lines, k));
    assert(lines_of(formatted(text))[k + 1] == printed_line(lines, k + 1));
}

} // verus!
