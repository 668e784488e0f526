//! Which texts the server hands to the parser. The parser of `.adapto` files
//! slices its input byte by byte and walks template markup in a way that
//! fails on some malformed texts; `parse_safe` is a test, checked here, that
//! keeps those texts away from it. It is sufficient, not necessary: it asks
//! for ASCII text, no quote standing alone as a value, `(` before `)` on
//! declaration lines, and well-nested markup in the template block.
use vstd::prelude::*;
use crate::text::{
    chars_of, contains, contains_exec, eq_chars, find, find_exec, has_prefix, is_word,
    is_word_char, is_ws, is_ws_char, lemma_find_from_props, lines_of, lines_view, occurs_at,
    occurs_at_exec, slice_chars, split_lines, starts_with, trim, trimmed,
};
use crate::text::find_from;

verus! {

// ---------------------------------------------------------------------------
// Characters
// ---------------------------------------------------------------------------

/// Every character of the text is ASCII.
pub open spec fn ascii_only(t: Seq<char>) -> bool {
    forall|i: int| 0 <= i < t.len() ==> (t[i] as u32) < 0x80
}

pub open spec fn is_quote(c: char) -> bool {
    c == '"' || c == '\''
}

/// The character before index `i` could end what comes before a value
/// (nothing, whitespace, `:`, `(`, `[` or `>`).
pub open spec fn open_left(t: Seq<char>, i: int) -> bool {
    i == 0 || is_ws(t[i - 1]) || t[i - 1] == ':' || t[i - 1] == '(' || t[i - 1] == '[' || t[i - 1] == '>'
}

/// The character after index `i` could end a value (nothing, whitespace,
/// `)`, `]`, `}` or `<`).
pub open spec fn open_right(t: Seq<char>, i: int) -> bool {
    i + 1 >= t.len() || is_ws(t[i + 1]) || t[i + 1] == ')' || t[i + 1] == ']' || t[i + 1] == '}'
        || t[i + 1] == '<'
}

/// No quote stands alone between value boundaries (such a quote would be
/// read as a quoted value that is only its opening quote).
pub open spec fn no_lone_quote(t: Seq<char>) -> bool {
    forall|i: int| 0 <= i < t.len() && is_quote(t[i]) ==> !(open_left(t, i) && open_right(t, i))
}

// ---------------------------------------------------------------------------
// Declaration lines
// ---------------------------------------------------------------------------

/// A declaration keyword stands somewhere in the line.
pub open spec fn has_decl_word(l: Seq<char>) -> bool {
    contains(l, "load "@) || contains(l, "action "@) || contains(l, "server "@)
}

/// The line may hold a loader, action or server function declaration: its
/// text starts with `load `, `action `, `server ` or `ai action` and a
/// space or tab, or it
/// holds such a word and a `>` (after which a block's text may start).
pub open spec fn decl_line(l: Seq<char>) -> bool {
    let t = trim(l);
    ||| starts_with(t, "load "@)
    ||| starts_with(t, "action "@)
    ||| starts_with(t, "server "@)
    ||| starts_with(t, "ai action "@)
    ||| starts_with(t, "ai action\t"@)
    ||| contains(l, ">"@) && has_decl_word(l)
}

/// Every `(` of the line comes before every `)` of it.
pub open spec fn parens_ordered(l: Seq<char>) -> bool {
    forall|i: int, j: int| 0 <= i < j < l.len() ==> !(l[i] == ')' && l[j] == '(')
}

/// Every declaration line has its parentheses in order.
pub open spec fn decl_parens_ok(t: Seq<char>) -> bool {
    forall|k: int| 0 <= k < lines_of(t).len() && decl_line(#[trigger] lines_of(t)[k]) ==> parens_ordered(
        lines_of(t)[k],
    )
}

// ---------------------------------------------------------------------------
// Template markup
// ---------------------------------------------------------------------------

/// What an open construct of the markup is: an element (its name, as a
/// span of the markup), an `{#if}` (whether its `{:else}` came), an
/// `{#each}`, a `{#match}` (whether an arm began) or a `{#can}`.
#[derive(Clone, Copy, PartialEq, Eq, Structural)]
pub enum Frame {
    Elem { from: usize, to: usize },
    If { else_seen: bool },
    Each,
    Match { armed: bool },
    Can,
}

/// A character of a tag or attribute name.
pub open spec fn name_char(c: char) -> bool {
    is_word_char(c) || c == '-'
}

/// The first index at or after `i` holding `c`.
pub open spec fn char_from(s: Seq<char>, c: char, i: int) -> Option<int>
    decreases s.len() - i,
{
    if i < 0 || i >= s.len() {
        None
    } else if s[i] == c {
        Some(i)
    } else {
        char_from(s, c, i + 1)
    }
}

/// Where the run of name characters from `i` ends.
pub open spec fn name_end(s: Seq<char>, i: int) -> int
    decreases s.len() - i,
{
    if i < 0 || i >= s.len() || !name_char(s[i]) {
        i
    } else {
        name_end(s, i + 1)
    }
}

/// The `}` that closes braces opened `depth` deep, scanning from `i`.
pub open spec fn brace_end(s: Seq<char>, i: int, depth: nat) -> Option<int>
    decreases s.len() - i,
{
    if i < 0 || i >= s.len() {
        None
    } else if s[i] == '{' {
        brace_end(s, i + 1, depth + 1)
    } else if s[i] == '}' {
        if depth <= 1 {
            Some(i)
        } else {
            brace_end(s, i + 1, (depth - 1) as nat)
        }
    } else {
        brace_end(s, i + 1, depth)
    }
}

/// The inside of a tag, from `i` up to its `>` at `e`, inside a quoted
/// value of quote `q` or outside any: no `<`, `{` or `}`; every `=` followed
/// at once by a quote; every quote that opens a value right after an `=`;
/// no quote of the other kind and no `=` inside a value; every value closed.
pub open spec fn tag_ok(s: Seq<char>, i: int, e: int, q: Option<char>) -> bool
    decreases e - i,
{
    if i < 0 || i >= e || e > s.len() {
        q is None
    } else {
        match q {
            Some(qc) => if s[i] == qc {
                tag_ok(s, i + 1, e, None)
            } else if is_quote(s[i]) || s[i] == '=' {
                false
            } else {
                tag_ok(s, i + 1, e, q)
            },
            None => if s[i] == '<' || s[i] == '{' || s[i] == '}' {
                false
            } else if s[i] == '=' {
                i + 1 < e && is_quote(s[i + 1]) && tag_ok(s, i + 1, e, None)
            } else if is_quote(s[i]) {
                i >= 1 && s[i - 1] == '=' && tag_ok(s, i + 1, e, Some(s[i]))
            } else {
                tag_ok(s, i + 1, e, None)
            },
        }
    }
}

/// An HTML element that has no children.
pub open spec fn void_name(n: Seq<char>) -> bool {
    ||| n == "area"@
    ||| n == "base"@
    ||| n == "br"@
    ||| n == "col"@
    ||| n == "embed"@
    ||| n == "hr"@
    ||| n == "img"@
    ||| n == "input"@
    ||| n == "link"@
    ||| n == "meta"@
    ||| n == "param"@
    ||| n == "source"@
    ||| n == "track"@
    ||| n == "wbr"@
}

/// The tag `<name ...>` from `i` to its `>` at `e` opens an element with
/// children: an error boundary always, another tag unless it ends in `/>`
/// or names a void element.
pub open spec fn opens_children(s: Seq<char>, i: int, e: int) -> bool {
    let n = s.subrange(i + 1, name_end(s, i + 1));
    n == "error-boundary"@ || (s[e - 1] != '/' && !void_name(n))
}

/// What the braces `{x}` do to the open constructs `st`: `None` where they
/// are not allowed there.
pub open spec fn flow_effect(x: Seq<char>, st: Seq<Frame>) -> Option<Seq<Frame>> {
    let top = if st.len() > 0 {
        Some(st.last())
    } else {
        None
    };
    if top == Some(Frame::Match { armed: false }) {
        if starts_with(x, ":when"@) {
            Some(st.drop_last().push(Frame::Match { armed: true }))
        } else if x == "/match"@ {
            Some(st.drop_last())
        } else {
            None
        }
    } else if starts_with(x, "#if "@) || starts_with(x, "#if\t"@) {
        Some(st.push(Frame::If { else_seen: false }))
    } else if starts_with(x, "#each "@) || starts_with(x, "#each\t"@) {
        Some(st.push(Frame::Each))
    } else if starts_with(x, "#match "@) || starts_with(x, "#match\t"@) {
        Some(st.push(Frame::Match { armed: false }))
    } else if starts_with(x, "#can "@) || starts_with(x, "#can\t"@) {
        Some(st.push(Frame::Can))
    } else if starts_with(x, ":else if"@) {
        if top == Some(Frame::If { else_seen: false }) {
            Some(st)
        } else {
            None
        }
    } else if x == ":else"@ {
        if top == Some(Frame::If { else_seen: false }) {
            Some(st.drop_last().push(Frame::If { else_seen: true }))
        } else {
            None
        }
    } else if x == "/if"@ {
        if top matches Some(Frame::If { .. }) {
            Some(st.drop_last())
        } else {
            None
        }
    } else if x == "/each"@ {
        if top == Some(Frame::Each) {
            Some(st.drop_last())
        } else {
            None
        }
    } else if x == "/can"@ {
        if top == Some(Frame::Can) {
            Some(st.drop_last())
        } else {
            None
        }
    } else if starts_with(x, ":when"@) {
        if top matches Some(Frame::Match { .. }) {
            Some(st)
        } else {
            None
        }
    } else if x == "/match"@ {
        if top matches Some(Frame::Match { .. }) {
            Some(st.drop_last())
        } else {
            None
        }
    } else if x.len() > 0 && (x[0] == ':' || x[0] == '/' || x[0] == '#') {
        None
    } else {
        Some(st)
    }
}

/// One step through the markup at `i` with the open constructs `st`: where
/// the next step starts and what is open then; `None` where the markup is
/// not well nested there.
pub open spec fn markup_step(s: Seq<char>, i: int, st: Seq<Frame>) -> Option<(int, Seq<Frame>)> {
    let top = if st.len() > 0 {
        Some(st.last())
    } else {
        None
    };
    if top == Some(Frame::Match { armed: false }) && s[i] != '{' {
        if is_ws(s[i]) {
            Some((i + 1, st))
        } else {
            None
        }
    } else if s[i] == '<' {
        if occurs_at(s, "<!--"@, i) {
            match find_from(s, "-->"@, i) {
                Some(k) => Some((k + 3, st)),
                None => None,
            }
        } else {
            match char_from(s, '>', i) {
                None => None,
                Some(e) => if i + 1 < s.len() && s[i + 1] == '/' {
                    match top {
                        Some(Frame::Elem { from, to }) => if from <= to <= s.len() && s.subrange(
                            i + 2,
                            e,
                        ) == s.subrange(from as int, to as int) {
                            Some((e + 1, st.drop_last()))
                        } else {
                            None
                        },
                        _ => None,
                    }
                } else if name_end(s, i + 1) == i + 1 || !tag_ok(s, i + 1, e, None) {
                    None
                } else if opens_children(s, i, e) {
                    Some((e + 1, st.push(Frame::Elem { from: (i + 1) as usize, to: name_end(s, i + 1) as usize })))
                } else {
                    Some((e + 1, st))
                },
            }
        }
    } else if s[i] == '{' {
        match brace_end(s, i + 1, 1) {
            None => None,
            Some(j) => match flow_effect(s.subrange(i + 1, j), st) {
                None => None,
                Some(st2) => Some((j + 1, st2)),
            },
        }
    } else {
        Some((i + 1, st))
    }
}

/// The markup from `i` on, with `st` open, is well nested.
pub open spec fn markup_from(s: Seq<char>, i: int, st: Seq<Frame>) -> bool
    decreases s.len() - i,
{
    if i < 0 || i >= s.len() {
        true
    } else {
        match markup_step(s, i, st) {
            None => false,
            Some((j, st2)) => if j <= i {
                false
            } else if j >= s.len() {
                true
            } else {
                markup_from(s, j, st2)
            },
        }
    }
}

/// The template block, where the text has one: at most one `<template` in
/// the text, and its markup (from after the first `>` that follows it to
/// the first `</template>` after that) well nested.
pub open spec fn template_ok(t: Seq<char>) -> bool {
    match find(t, "<template"@) {
        None => true,
        Some(p) => !contains(t.skip(p + 1), "<template"@) && match char_from(t, '>', p) {
            None => true,
            Some(g) => match find_from(t, "</template>"@, g + 1) {
                None => true,
                Some(c) => markup_from(t.subrange(g + 1, c), 0, Seq::empty()),
            },
        },
    }
}

/// The text may be handed to the parser.
pub open spec fn parse_safe(t: Seq<char>) -> bool {
    &&& ascii_only(t)
    &&& no_lone_quote(t)
    &&& decl_parens_ok(t)
    &&& template_ok(t)
}

// ---------------------------------------------------------------------------
// The checks
// ---------------------------------------------------------------------------

fn ascii_exec(t: &Vec<char>) -> (b: bool)
    ensures
        b == ascii_only(t@),
{
    let mut i: usize = 0;
    while i < t.len()
        invariant
            i <= t.len(),
            forall|k: int| 0 <= k < i ==> (t@[k] as u32) < 0x80,
        decreases t.len() - i,
    {
        if (t[i] as u32) >= 0x80 {
            return false;
        }
        i = i + 1;
    }
    true
}

fn no_lone_quote_exec(t: &Vec<char>) -> (b: bool)
    ensures
        b == no_lone_quote(t@),
{
    let n = t.len();
    let mut i: usize = 0;
    while i < n
        invariant
            n == t.len(),
            i <= n,
            forall|k: int| 0 <= k < i && is_quote(t@[k]) ==> !(open_left(t@, k) && open_right(t@, k)),
        decreases n - i,
    {
        let c = t[i];
        if c == '"' || c == '\'' {
            let left = i == 0 || is_ws_char(t[i - 1]) || t[i - 1] == ':' || t[i - 1] == '(' || t[i
                - 1] == '[' || t[i - 1] == '>';
            let right = i + 1 >= n || is_ws_char(t[i + 1]) || t[i + 1] == ')' || t[i + 1] == ']'
                || t[i + 1] == '}' || t[i + 1] == '<';
            if left && right {
                assert(is_quote(t@[i as int]) && open_left(t@, i as int) && open_right(t@, i as int));
                return false;
            }
        }
        i = i + 1;
    }
    true
}

fn parens_ordered_exec(l: &Vec<char>) -> (b: bool)
    ensures
        b == parens_ordered(l@),
{
    let mut closed: Option<usize> = None;
    let mut j: usize = 0;
    while j < l.len()
        invariant
            j <= l.len(),
            forall|a: int, b: int| 0 <= a < b < j ==> !(l@[a] == ')' && l@[b] == '('),
            closed matches Some(a) ==> a < j && l@[a as int] == ')',
            closed is None ==> forall|a: int| 0 <= a < j ==> l@[a] != ')',
        decreases l.len() - j,
    {
        if l[j] == '(' {
            if let Some(a) = closed {
                assert(l@[a as int] == ')' && l@[j as int] == '(');
                return false;
            }
        }
        if l[j] == ')' && closed.is_none() {
            closed = Some(j);
        }
        j = j + 1;
    }
    true
}

fn decl_line_exec(l: &Vec<char>) -> (b: bool)
    ensures
        b == decl_line(l@),
{
    let t = trimmed(l);
    starts_lit(&t, "load ") || starts_lit(&t, "action ") || starts_lit(&t, "server ") || starts_lit(
        &t,
        "ai action ",
    ) || starts_lit(&t, "ai action\t") || (contains_exec(l, &chars_of(">")) && (contains_exec(l, &chars_of("load "))
        || contains_exec(l, &chars_of("action ")) || contains_exec(l, &chars_of("server "))))
}

fn decl_parens_exec(t: &Vec<char>) -> (b: bool)
    ensures
        b == decl_parens_ok(t@),
{
    let lines = split_lines(t);
    let ghost all = lines_view(lines@);
    assert(all == lines_of(t@));
    let mut k: usize = 0;
    while k < lines.len()
        invariant
            all == lines_view(lines@),
            all == lines_of(t@),
            k <= lines.len(),
            forall|m: int| 0 <= m < k && decl_line(#[trigger] all[m]) ==> parens_ordered(all[m]),
        decreases lines.len() - k,
    {
        assert(all[k as int] == lines[k as int]@);
        let decl = decl_line_exec(&lines[k]);
        if decl && !parens_ordered_exec(&lines[k]) {
            return false;
        }
        k = k + 1;
    }
    true
}

fn char_from_exec(s: &Vec<char>, c: char, i: usize) -> (r: Option<usize>)
    ensures
        r matches Some(k) ==> char_from(s@, c, i as int) == Some(k as int),
        r is None ==> char_from(s@, c, i as int) is None,
{
    let mut k: usize = i;
    while k < s.len()
        invariant
            i <= k,
            char_from(s@, c, i as int) == char_from(s@, c, k as int),
        decreases s.len() - k,
    {
        if s[k] == c {
            return Some(k);
        }
        k = k + 1;
    }
    None
}

fn find_from_exec(s: &Vec<char>, p: &Vec<char>, i: usize) -> (r: Option<usize>)
    ensures
        r matches Some(k) ==> find_from(s@, p@, i as int) == Some(k as int),
        r is None ==> find_from(s@, p@, i as int) is None,
{
    let mut k: usize = i;
    while k < s.len()
        invariant
            i <= k,
            forall|j: int| i <= j < k ==> !occurs_at(s@, p@, j),
        decreases s.len() - k,
    {
        if occurs_at_exec(s, p, k) {
            proof {
                lemma_find_from_props(s@, p@, i as int);
                if let Some(m) = find_from(s@, p@, i as int) {
                    if m < k {
                        assert(!occurs_at(s@, p@, m));
                    } else if m > k {
                        assert(!occurs_at(s@, p@, k as int));
                    }
                } else {
                    assert(!occurs_at(s@, p@, k as int));
                }
            }
            return Some(k);
        }
        k = k + 1;
    }
    if occurs_at_exec(s, p, k) {
        proof {
            lemma_find_from_props(s@, p@, i as int);
            if let Some(m) = find_from(s@, p@, i as int) {
                if m < k {
                    assert(!occurs_at(s@, p@, m));
                } else if m > k {
                    assert(!occurs_at(s@, p@, k as int));
                }
            } else {
                assert(!occurs_at(s@, p@, k as int));
            }
        }
        return Some(k);
    }
    proof {
        lemma_find_from_props(s@, p@, i as int);
        if let Some(m) = find_from(s@, p@, i as int) {
            assert(occurs_at(s@, p@, m));
            if m < k {
                assert(!occurs_at(s@, p@, m));
            }
        }
    }
    None
}

fn name_end_exec(s: &Vec<char>, i: usize) -> (r: usize)
    requires
        i <= s.len(),
    ensures
        r == name_end(s@, i as int),
        i <= r <= s.len(),
{
    let mut k: usize = i;
    while k < s.len() && (is_word(s[k]) || s[k] == '-')
        invariant
            i <= k <= s.len(),
            name_end(s@, i as int) == name_end(s@, k as int),
        decreases s.len() - k,
    {
        k = k + 1;
    }
    k
}

fn brace_end_exec(s: &Vec<char>, i: usize) -> (r: Option<usize>)
    ensures
        r matches Some(k) ==> brace_end(s@, i as int, 1) == Some(k as int),
        r is None ==> brace_end(s@, i as int, 1) is None,
{
    let mut k: usize = i;
    let mut extra: usize = 0;
    while k < s.len()
        invariant
            i <= k,
            extra <= k - i,
            brace_end(s@, i as int, 1) == brace_end(s@, k as int, (extra + 1) as nat),
        decreases s.len() - k,
    {
        if s[k] == '{' {
            extra = extra + 1;
        } else if s[k] == '}' {
            if extra == 0 {
                return Some(k);
            }
            extra = extra - 1;
        }
        k = k + 1;
    }
    None
}

fn tag_ok_exec(s: &Vec<char>, i: usize, e: usize) -> (b: bool)
    requires
        i <= e <= s.len(),
    ensures
        b == tag_ok(s@, i as int, e as int, None),
{
    let mut q: Option<char> = None;
    let mut k: usize = i;
    while k < e
        invariant
            i <= k <= e <= s.len(),
            tag_ok(s@, i as int, e as int, None) == tag_ok(s@, k as int, e as int, q),
        decreases e - k,
    {
        let c = s[k];
        match q {
            Some(qc) => {
                if c == qc {
                    q = None;
                } else if c == '"' || c == '\'' || c == '=' {
                    return false;
                }
            },
            None => {
                if c == '<' || c == '{' || c == '}' {
                    return false;
                } else if c == '=' {
                    if !(k + 1 < e && (s[k + 1] == '"' || s[k + 1] == '\'')) {
                        return false;
                    }
                } else if c == '"' || c == '\'' {
                    if !(k >= 1 && s[k - 1] == '=') {
                        return false;
                    }
                    q = Some(c);
                }
            },
        }
        k = k + 1;
    }
    q.is_none()
}

fn void_exec(n: &Vec<char>) -> (b: bool)
    ensures
        b == void_name(n@),
{
    eq_chars(n, &chars_of("area")) || eq_chars(n, &chars_of("base")) || eq_chars(n, &chars_of("br"))
        || eq_chars(n, &chars_of("col")) || eq_chars(n, &chars_of("embed")) || eq_chars(
        n,
        &chars_of("hr"),
    ) || eq_chars(n, &chars_of("img")) || eq_chars(n, &chars_of("input")) || eq_chars(
        n,
        &chars_of("link"),
    ) || eq_chars(n, &chars_of("meta")) || eq_chars(n, &chars_of("param")) || eq_chars(
        n,
        &chars_of("source"),
    ) || eq_chars(n, &chars_of("track")) || eq_chars(n, &chars_of("wbr"))
}

fn top_of(st: &Vec<Frame>) -> (r: Option<Frame>)
    ensures
        r == (if st@.len() > 0 {
            Some(st@.last())
        } else {
            None
        }),
{
    if st.len() > 0 {
        Some(st[st.len() - 1])
    } else {
        None
    }
}

fn is_lit(x: &Vec<char>, lit: &str) -> (b: bool)
    ensures
        b == (x@ == lit@),
{
    eq_chars(x, &chars_of(lit))
}

fn starts_lit(x: &Vec<char>, lit: &str) -> (b: bool)
    ensures
        b == starts_with(x@, lit@),
{
    has_prefix(x, &chars_of(lit))
}

fn pop(st: &mut Vec<Frame>)
    requires
        old(st)@.len() > 0,
    ensures
        final(st)@ == old(st)@.drop_last(),
{
    st.pop();
}

fn replace_top(st: &mut Vec<Frame>, f: Frame)
    requires
        old(st)@.len() > 0,
    ensures
        final(st)@ == old(st)@.drop_last().push(f),
{
    st.pop();
    st.push(f);
}

/// Applies `flow_effect(x, st)` to `st`; `false` (and `st` as it may be) where it is `None`.
fn flow_exec(x: &Vec<char>, st: &mut Vec<Frame>) -> (ok: bool)
    ensures
        ok == (flow_effect(x@, old(st)@) is Some),
        ok ==> flow_effect(x@, old(st)@) == Some(final(st)@),
{
    let top = top_of(st);
    if top == Some(Frame::Match { armed: false }) {
        if starts_lit(x, ":when") {
            replace_top(st, Frame::Match { armed: true });
            return true;
        } else if is_lit(x, "/match") {
            pop(st);
            return true;
        } else {
            return false;
        }
    }
    if starts_lit(x, "#if ") || starts_lit(x, "#if\t") {
        st.push(Frame::If { else_seen: false });
        true
    } else if starts_lit(x, "#each ") || starts_lit(x, "#each\t") {
        st.push(Frame::Each);
        true
    } else if starts_lit(x, "#match ") || starts_lit(x, "#match\t") {
        st.push(Frame::Match { armed: false });
        true
    } else if starts_lit(x, "#can ") || starts_lit(x, "#can\t") {
        st.push(Frame::Can);
        true
    } else if starts_lit(x, ":else if") {
        top == Some(Frame::If { else_seen: false })
    } else if is_lit(x, ":else") {
        if top == Some(Frame::If { else_seen: false }) {
            replace_top(st, Frame::If { else_seen: true });
            true
        } else {
            false
        }
    } else if is_lit(x, "/if") {
        match top {
            Some(Frame::If { .. }) => {
                pop(st);
                true
            },
            _ => false,
        }
    } else if is_lit(x, "/each") {
        if top == Some(Frame::Each) {
            pop(st);
            true
        } else {
            false
        }
    } else if is_lit(x, "/can") {
        if top == Some(Frame::Can) {
            pop(st);
            true
        } else {
            false
        }
    } else if starts_lit(x, ":when") {
        match top {
            Some(Frame::Match { .. }) => true,
            _ => false,
        }
    } else if is_lit(x, "/match") {
        match top {
            Some(Frame::Match { .. }) => {
                pop(st);
                true
            },
            _ => false,
        }
    } else if x.len() > 0 && (x[0] == ':' || x[0] == '/' || x[0] == '#') {
        false
    } else {
        true
    }
}

/// One step of `markup_step`: where the next step starts (with `st` updated),
/// or `None` where the markup is not well nested.
fn step_exec(s: &Vec<char>, i: usize, st: &mut Vec<Frame>) -> (r: Option<usize>)
    requires
        i < s.len(),
    ensures
        r is Some <==> markup_step(s@, i as int, old(st)@) is Some,
        r matches Some(j) ==> markup_step(s@, i as int, old(st)@) == Some((j as int, final(st)@)),
{
    let top = top_of(st);
    if top == Some(Frame::Match { armed: false }) && s[i] != '{' {
        if is_ws_char(s[i]) {
            return Some(i + 1);
        } else {
            return None;
        }
    }
    if s[i] == '<' {
        let open_comment = chars_of("<!--");
        if occurs_at_exec(s, &open_comment, i) {
            let close_comment = chars_of("-->");
            match find_from_exec(s, &close_comment, i) {
                Some(k) => {
                    proof {
                        lemma_find_from_props(s@, close_comment@, i as int);
                        reveal_strlit("-->");
                    }
                    return Some(k + 3);
                },
                None => {
                    return None;
                },
            }
        }
        let e = match char_from_exec(s, '>', i) {
            Some(e) => e,
            None => {
                return None;
            },
        };
        proof {
            lemma_char_from_props(s@, '>', i as int);
        }
        if i + 1 < s.len() && s[i + 1] == '/' {
            match top {
                Some(Frame::Elem { from, to }) => {
                    if from <= to && to <= s.len() {
                        let closing = slice_chars(s, i + 2, e);
                        let name = slice_chars(s, from, to);
                        if eq_chars(&closing, &name) {
                            pop(st);
                            return Some(e + 1);
                        }
                    }
                    return None;
                },
                _ => {
                    return None;
                },
            }
        }
        let ne = name_end_exec(s, i + 1);
        proof {
            lemma_name_end_props(s@, i + 1);
        }
        if ne == i + 1 || !tag_ok_exec(s, i + 1, e) {
            return None;
        }
        let n = slice_chars(s, i + 1, ne);
        let children = is_lit(&n, "error-boundary") || (s[e - 1] != '/' && !void_exec(&n));
        if children {
            st.push(Frame::Elem { from: i + 1, to: ne });
        }
        return Some(e + 1);
    }
    if s[i] == '{' {
        match brace_end_exec(s, i + 1) {
            None => {
                return None;
            },
            Some(j) => {
                proof {
                    lemma_brace_end_props(s@, i + 1, 1);
                }
                let x = slice_chars(s, i + 1, j);
                if flow_exec(&x, st) {
                    return Some(j + 1);
                } else {
                    return None;
                }
            },
        }
    }
    Some(i + 1)
}

proof fn lemma_char_from_props(s: Seq<char>, c: char, i: int)
    requires
        0 <= i,
    ensures
        char_from(s, c, i) matches Some(k) ==> i <= k < s.len() && s[k] == c,
    decreases s.len() - i,
{
    if i < s.len() && s[i] != c {
        lemma_char_from_props(s, c, i + 1);
    }
}

proof fn lemma_name_end_props(s: Seq<char>, i: int)
    requires
        0 <= i <= s.len(),
    ensures
        i <= name_end(s, i) <= s.len(),
        forall|k: int| i <= k < name_end(s, i) ==> name_char(#[trigger] s[k]),
    decreases s.len() - i,
{
    if i < s.len() && name_char(s[i]) {
        lemma_name_end_props(s, i + 1);
    }
}

proof fn lemma_brace_end_props(s: Seq<char>, i: int, depth: nat)
    requires
        0 <= i,
    ensures
        brace_end(s, i, depth) matches Some(k) ==> i <= k < s.len(),
    decreases s.len() - i,
{
    if i < s.len() {
        if s[i] == '{' {
            lemma_brace_end_props(s, i + 1, depth + 1);
        } else if s[i] == '}' {
            if depth > 1 {
                lemma_brace_end_props(s, i + 1, (depth - 1) as nat);
            }
        } else {
            lemma_brace_end_props(s, i + 1, depth);
        }
    }
}

fn markup_exec(s: &Vec<char>) -> (b: bool)
    ensures
        b == markup_from(s@, 0, Seq::empty()),
{
    let mut st: Vec<Frame> = Vec::new();
    let mut i: usize = 0;
    while i < s.len()
        invariant
            i <= s.len(),
            markup_from(s@, 0, Seq::empty()) == markup_from(s@, i as int, st@),
        decreases s.len() - i,
    {
        let ghost before = st@;
        match step_exec(s, i, &mut st) {
            None => {
                return false;
            },
            Some(j) => {
                if j <= i {
                    return false;
                }
                if j > s.len() {
                    return true;
                }
                i = j;
            },
        }
    }
    true
}

fn template_exec(t: &Vec<char>) -> (b: bool)
    ensures
        b == template_ok(t@),
{
    let open = chars_of("<template");
    let p = match find_exec(t, &open) {
        None => {
            return true;
        },
        Some(p) => p,
    };
    proof {
        lemma_find_from_props(t@, open@, 0);
        reveal_strlit("<template");
        assert(occurs_at(t@, open@, p as int));
        assert(p + 9 <= t@.len());
    }
    let n: usize = t.len();
    assert(p + 9 <= n);
    let after = slice_chars(t, p + 1, n);
    assert(after@ =~= t@.skip(p + 1));
    if contains_exec(&after, &open) {
        return false;
    }
    let g = match char_from_exec(t, '>', p) {
        None => {
            return true;
        },
        Some(g) => g,
    };
    proof {
        lemma_char_from_props(t@, '>', p as int);
    }
    let close = chars_of("</template>");
    let c = match find_from_exec(t, &close, g + 1) {
        None => {
            return true;
        },
        Some(c) => c,
    };
    proof {
        lemma_find_from_props(t@, close@, g + 1);
    }
    let m = slice_chars(t, g + 1, c);
    markup_exec(&m)
}

/// `parse_safe(text)`: whether the text may be handed to the parser.
pub fn parse_safe_exec(text: &str) -> (b: bool)
    ensures
        b == parse_safe(text@),
{
    let t = chars_of(text);
    ascii_exec(&t) && no_lone_quote_exec(&t) && decl_parens_exec(&t) && template_exec(&t)
}

} // verus!
