//! Semantic highlighting: the names declared by `state`, `prop` and `memo`
//! lines, action names, and `#[permission]` / `#[audit]` decorators, each a
//! token positioned relative to the token before it (the delta encoding of
//! the editor protocol).
use vstd::prelude::*;
use crate::document::DocumentState;
use crate::protocol::SemanticToken;
use crate::text::{
    byte_len, byte_len_u32, char_width, chars_of, contains, contains_exec, find, find_exec, has_prefix,
    lemma_byte_len_append, lemma_find_from_props, lines_of, lines_view, slice_chars, split_lines, starts_with, trim,
    trim_bounds, trim_start, u32_of,
};

verus! {

/// The names of the token types, by index.
pub const TOKEN_TYPES: [&'static str; 8] = [
    "variable",
    "property",
    "function",
    "keyword",
    "string",
    "decorator",
    "type",
    "namespace",
];

/// The names of the token modifiers, by bit.
pub const TOKEN_MODIFIERS: [&'static str; 3] = ["declaration", "readonly", "async"];

/// A token at an absolute place: line, byte column, byte length, type and modifier bits.
#[derive(Clone, Copy, Debug, PartialEq, Eq, Structural)]
pub struct RawToken {
    pub line: u32,
    pub start: u32,
    pub length: u32,
    pub token_type: u32,
    pub token_modifiers: u32,
}

/// The bytes of the whitespace a line starts with.
pub open spec fn lead_bytes(line: Seq<char>) -> int {
    byte_len(line) - byte_len(trim_start(line))
}

/// A token, its start and length truncated to 32 bits.
pub open spec fn raw(line: u32, start: int, length: int, ty: u32, mods: u32) -> RawToken {
    RawToken { line, start: u32_of(start), length: u32_of(length), token_type: ty, token_modifiers: mods }
}

/// `<keyword> name: ...`: the name, from after the keyword (of `k` characters)
/// up to the first `:`.
pub open spec fn declared_name_token(
    no: u32,
    line: Seq<char>,
    keyword: Seq<char>,
    k: int,
    ty: u32,
    mods: u32,
) -> Seq<RawToken> {
    let t = trim(line);
    if starts_with(t, keyword) {
        match find(t.skip(k), ":"@) {
            Some(e) => seq![raw(no, lead_bytes(line) + k, byte_len(t.skip(k).take(e)) as int, ty, mods)],
            None => Seq::empty(),
        }
    } else {
        Seq::empty()
    }
}

/// A line holding `action ` and `fn `: the name after the first `fn ` up to the next `(`.
pub open spec fn action_token(no: u32, line: Seq<char>) -> Seq<RawToken> {
    let t = trim(line);
    if contains(t, "action "@) && contains(t, "fn "@) {
        match find(t, "fn "@) {
            Some(k) => {
                let after = t.skip(k + 3);
                match find(after, "("@) {
                    Some(m) => seq![
                        raw(
                            no,
                            lead_bytes(line) + byte_len(t.take(k)) + 3,
                            byte_len(after.take(m)) as int,
                            2,
                            0,
                        ),
                    ],
                    None => Seq::empty(),
                }
            },
            None => Seq::empty(),
        }
    } else {
        Seq::empty()
    }
}

/// A `#[permission...` or `#[audit...` line: the whole trimmed line.
pub open spec fn decorator_token(no: u32, line: Seq<char>) -> Seq<RawToken> {
    let t = trim(line);
    if starts_with(t, "#[permission"@) || starts_with(t, "#[audit"@) {
        seq![raw(no, lead_bytes(line), byte_len(t) as int, 5, 0)]
    } else {
        Seq::empty()
    }
}

/// The tokens of line `no`, by place: a state, prop or memo name (at most
/// one of them), a decorator (which starts where the line's text starts),
/// then an action name (which starts after its `fn `).
pub open spec fn line_tokens(no: u32, line: Seq<char>) -> Seq<RawToken> {
    declared_name_token(no, line, "state "@, 6, 0, 1) + declared_name_token(no, line, "prop "@, 5, 1, 2)
        + declared_name_token(no, line, "memo "@, 5, 0, 2) + decorator_token(no, line)
        + action_token(no, line)
}

/// The tokens of all lines, line numbers truncated to 32 bits.
pub open spec fn raw_tokens(lines: Seq<Seq<char>>) -> Seq<RawToken>
    decreases lines.len(),
{
    if lines.len() == 0 {
        Seq::empty()
    } else {
        raw_tokens(lines.drop_last()) + line_tokens(u32_of(lines.len() - 1), lines.last())
    }
}

/// Each token comes after the one before it: on a later line, or on the
/// same line at the same or a later column (the deltas are then never negative).
pub open spec fn in_order(raws: Seq<RawToken>) -> bool {
    forall|i: int|
        0 < i < raws.len() ==> (raws[i - 1].line < #[trigger] raws[i].line || (raws[i - 1].line
            == raws[i].line && raws[i - 1].start <= raws[i].start))
}

/// The line and column of the last token, or (0, 0) before the first.
pub open spec fn last_place(raws: Seq<RawToken>) -> (u32, u32) {
    if raws.len() == 0 {
        (0, 0)
    } else {
        (raws.last().line, raws.last().start)
    }
}

/// `a - b` in 32-bit wrapping arithmetic.
pub open spec fn wrap_sub(a: u32, b: u32) -> u32 {
    (if a >= b {
        a - b
    } else {
        a - b + 0x1_0000_0000
    }) as u32
}

/// A token relative to the place of the token before it (the differences
/// wrap around in 32 bits, which happens only for a token placed before the
/// one ahead of it).
pub open spec fn delta(prev: (u32, u32), t: RawToken) -> SemanticToken {
    SemanticToken {
        delta_line: wrap_sub(t.line, prev.0),
        delta_start: if t.line == prev.0 {
            wrap_sub(t.start, prev.1)
        } else {
            t.start
        },
        length: t.length,
        token_type: t.token_type,
        token_modifiers_bitset: t.token_modifiers,
    }
}

/// The delta encoding of a token list.
pub open spec fn encode(raws: Seq<RawToken>) -> Seq<SemanticToken>
    decreases raws.len(),
{
    if raws.len() == 0 {
        Seq::empty()
    } else {
        encode(raws.drop_last()).push(delta(last_place(raws.drop_last()), raws.last()))
    }
}

/// The semantic tokens of a document: none where it did not parse.
pub open spec fn tokens_of(doc: DocumentState) -> Seq<SemanticToken> {
    if doc.ast is None {
        Seq::empty()
    } else {
        encode(raw_tokens(lines_of(doc.text@)))
    }
}

proof fn lemma_u32_of_add(x: int, y: int)
    requires
        0 <= x,
        0 <= y,
    ensures
        u32_of(x + y) == (u32_of(x) + u32_of(y)) % 0x1_0000_0000,
        0 <= (u32_of(x) + u32_of(y)) % 0x1_0000_0000 < 0x1_0000_0000,
{
    vstd::arithmetic::div_mod::lemma_add_mod_noop(x, y, 0x1_0000_0000);
    vstd::arithmetic::div_mod::lemma_mod_bound(x, 0x1_0000_0000);
    vstd::arithmetic::div_mod::lemma_mod_bound(y, 0x1_0000_0000);
    vstd::arithmetic::div_mod::lemma_mod_bound(x + y, 0x1_0000_0000);
    vstd::arithmetic::div_mod::lemma_mod_bound(
        (x % 0x1_0000_0000) + (y % 0x1_0000_0000),
        0x1_0000_0000,
    );
}

proof fn lemma_u32_of_small(x: int)
    requires
        0 <= x < 0x1_0000_0000,
    ensures
        u32_of(x) == x,
{
    vstd::arithmetic::div_mod::lemma_small_mod(x as nat, 0x1_0000_0000);
}

fn wrap_add(a: u32, b: u32) -> (r: u32)
    ensures
        r == (a + b) % 0x1_0000_0000,
{
    let s: u64 = a as u64 + b as u64;
    proof {
        vstd::arithmetic::div_mod::lemma_fundamental_div_mod(s as int, 0x1_0000_0000);
        if s >= 0x1_0000_0000 {
            vstd::arithmetic::div_mod::lemma_mod_sub_multiples_vanish(s as int, 0x1_0000_0000);
            vstd::arithmetic::div_mod::lemma_small_mod((s - 0x1_0000_0000) as nat, 0x1_0000_0000);
        } else {
            vstd::arithmetic::div_mod::lemma_small_mod(s as nat, 0x1_0000_0000);
        }
    }
    if s >= 0x1_0000_0000 {
        (s - 0x1_0000_0000) as u32
    } else {
        s as u32
    }
}

/// `lead_bytes(line)`, truncated to 32 bits, where `a` is where `trim_start(line)` begins.
fn lead_u32(line: &Vec<char>, a: usize) -> (r: u32)
    requires
        a <= line.len(),
        trim_start(line@) == line@.skip(a as int),
    ensures
        r == u32_of(lead_bytes(line@)),
{
    proof {
        lemma_byte_len_append(line@.take(a as int), line@.skip(a as int));
        assert(line@.take(a as int) + line@.skip(a as int) =~= line@);
        assert(line@.subrange(0, a as int) =~= line@.take(a as int));
    }
    byte_len_u32(line, 0, a)
}

fn push_raw(out: &mut Vec<RawToken>, t: RawToken)
    ensures
        final(out)@ == old(out)@.push(t),
{
    out.push(t);
}

/// `declared_name_token` for a keyword of `k` characters.
fn name_token(
    no: u32,
    line: &Vec<char>,
    t: &Vec<char>,
    lead: u32,
    keyword: &Vec<char>,
    k: usize,
    ty: u32,
    mods: u32,
    out: &mut Vec<RawToken>,
)
    requires
        t@ == trim(line@),
        lead == u32_of(lead_bytes(line@)),
        lead_bytes(line@) >= 0,
        k == keyword@.len(),
        k <= 6,
    ensures
        final(out)@ == old(out)@ + declared_name_token(no, line@, keyword@, k as int, ty, mods),
{
    if has_prefix(t, keyword) {
        let rest = slice_chars(t, k, t.len());
        assert(rest@ =~= t@.skip(k as int));
        let colon = chars_of(":");
        match find_exec(&rest, &colon) {
            Some(e) => {
                proof {
                    crate::text::lemma_find_from_props(rest@, colon@, 0);
                    reveal_strlit(":");
                }
                let len = byte_len_u32(&rest, 0, e);
                proof {
                    assert(rest@.subrange(0, e as int) =~= t@.skip(k as int).take(e as int));
                    lemma_u32_of_add(lead_bytes(line@), k as int);
                    lemma_u32_of_small(k as int);
                }
                let start = wrap_add(lead, k as u32);
                push_raw(
                    out,
                    RawToken { line: no, start, length: len, token_type: ty, token_modifiers: mods },
                );
                assert(final(out)@ =~= old(out)@ + declared_name_token(
                    no,
                    line@,
                    keyword@,
                    k as int,
                    ty,
                    mods,
                ));
            },
            None => {
                assert(old(out)@ + declared_name_token(no, line@, keyword@, k as int, ty, mods)
                    =~= old(out)@);
            },
        }
    } else {
        assert(old(out)@ + declared_name_token(no, line@, keyword@, k as int, ty, mods) =~= old(
            out,
        )@);
    }
}

fn action_name_token(no: u32, line: &Vec<char>, t: &Vec<char>, lead: u32, out: &mut Vec<RawToken>)
    requires
        t@ == trim(line@),
        lead == u32_of(lead_bytes(line@)),
        lead_bytes(line@) >= 0,
    ensures
        final(out)@ == old(out)@ + action_token(no, line@),
{
    let action_kw = chars_of("action ");
    let fn_kw = chars_of("fn ");
    if contains_exec(t, &action_kw) && contains_exec(t, &fn_kw) {
        match find_exec(t, &fn_kw) {
            Some(k) => {
                proof {
                    crate::text::lemma_find_from_props(t@, fn_kw@, 0);
                    reveal_strlit("fn ");
                    assert(fn_kw@.len() == 3);
                    assert(crate::text::occurs_at(t@, fn_kw@, k as int));
                    assert(k + 3 <= t.len());
                }
                let after = slice_chars(t, k + 3, t.len());
                assert(after@ =~= t@.skip(k + 3));
                let paren = chars_of("(");
                match find_exec(&after, &paren) {
                    Some(m) => {
                        proof {
                            crate::text::lemma_find_from_props(after@, paren@, 0);
                            reveal_strlit("(");
                        }
                        let before = byte_len_u32(t, 0, k);
                        let len = byte_len_u32(&after, 0, m);
                        proof {
                            assert(t@.subrange(0, k as int) =~= t@.take(k as int));
                            assert(after@.subrange(0, m as int) =~= after@.take(m as int));
                            let lb = lead_bytes(line@);
                            let tb = byte_len(t@.take(k as int)) as int;
                            lemma_u32_of_add(lb, tb);
                            lemma_u32_of_add(lb + tb, 3);
                            lemma_u32_of_small(3);
                        }
                        let start = wrap_add(wrap_add(lead, before), 3);
                        push_raw(
                            out,
                            RawToken { line: no, start, length: len, token_type: 2, token_modifiers: 0 },
                        );
                        assert(final(out)@ =~= old(out)@ + action_token(no, line@));
                    },
                    None => {
                        assert(old(out)@ + action_token(no, line@) =~= old(out)@);
                    },
                }
            },
            None => {
                assert(old(out)@ + action_token(no, line@) =~= old(out)@);
            },
        }
    } else {
        assert(old(out)@ + action_token(no, line@) =~= old(out)@);
    }
}

fn decorator(no: u32, line: &Vec<char>, t: &Vec<char>, lead: u32, out: &mut Vec<RawToken>)
    requires
        t@ == trim(line@),
        lead == u32_of(lead_bytes(line@)),
    ensures
        final(out)@ == old(out)@ + decorator_token(no, line@),
{
    if has_prefix(t, &chars_of("#[permission")) || has_prefix(t, &chars_of("#[audit")) {
        let len = byte_len_u32(t, 0, t.len());
        assert(t@.subrange(0, t@.len() as int) =~= t@);
        push_raw(out, RawToken { line: no, start: lead, length: len, token_type: 5, token_modifiers: 0 });
        assert(final(out)@ =~= old(out)@ + decorator_token(no, line@));
    } else {
        assert(old(out)@ + decorator_token(no, line@) =~= old(out)@);
    }
}

/// `raw_tokens(lines)`.
#[verifier::rlimit(50)]
pub fn collect_raw_tokens(lines: &Vec<Vec<char>>) -> (r: Vec<RawToken>)
    ensures
        r@ == raw_tokens(lines_view(lines@)),
{
    let ghost all = lines_view(lines@);
    let state_kw = chars_of("state ");
    let prop_kw = chars_of("prop ");
    let memo_kw = chars_of("memo ");
    proof {
        reveal_strlit("state ");
        reveal_strlit("prop ");
        reveal_strlit("memo ");
    }
    let mut out: Vec<RawToken> = Vec::new();
    let mut i: usize = 0;
    while i < lines.len()
        invariant
            all == lines_view(lines@),
            i <= lines.len(),
            out@ == raw_tokens(all.take(i as int)),
            state_kw@ == "state "@,
            prop_kw@ == "prop "@,
            memo_kw@ == "memo "@,
            state_kw@.len() == 6,
            prop_kw@.len() == 5,
            memo_kw@.len() == 5,
        decreases lines.len() - i,
    {
        let line = &lines[i];
        proof {
            assert(all.take(i + 1).drop_last() =~= all.take(i as int));
            assert(all.take(i + 1).last() == line@);
        }
        let no = (i as u64 % 0x1_0000_0000) as u32;
        let (a, b) = trim_bounds(line);
        let t = slice_chars(line, a, b);
        proof {
            lemma_byte_len_append(line@.take(a as int), line@.skip(a as int));
            assert(line@.take(a as int) + line@.skip(a as int) =~= line@);
        }
        let lead = lead_u32(line, a);
        let ghost before = out@;
        name_token(no, line, &t, lead, &state_kw, 6, 0, 1, &mut out);
        name_token(no, line, &t, lead, &prop_kw, 5, 1, 2, &mut out);
        name_token(no, line, &t, lead, &memo_kw, 5, 0, 2, &mut out);
        decorator(no, line, &t, lead, &mut out);
        action_name_token(no, line, &t, lead, &mut out);
        proof {
            assert(no == u32_of(i as int));
            assert(out@ =~= before + line_tokens(no, line@));
        }
        i = i + 1;
    }
    assert(all.take(lines.len() as int) =~= all);
    out
}

fn wrapping_diff(a: u32, b: u32) -> (r: u32)
    ensures
        r == wrap_sub(a, b),
{
    if a >= b {
        a - b
    } else {
        let d: u64 = 0x1_0000_0000u64 - b as u64 + a as u64;
        d as u32
    }
}

fn push_token(
    tokens: &mut Vec<SemanticToken>,
    prev_line: &mut u32,
    prev_start: &mut u32,
    line: u32,
    start: u32,
    length: u32,
    token_type: u32,
    token_modifiers: u32,
)
    ensures
        final(tokens)@ == old(tokens)@.push(
            delta(
                (*old(prev_line), *old(prev_start)),
                RawToken { line, start, length, token_type, token_modifiers },
            ),
        ),
        *final(prev_line) == line,
        *final(prev_start) == start,
{
    let delta_line = wrapping_diff(line, *prev_line);
    let delta_start = if line == *prev_line {
        wrapping_diff(start, *prev_start)
    } else {
        start
    };
    tokens.push(
        SemanticToken {
            delta_line,
            delta_start,
            length,
            token_type,
            token_modifiers_bitset: token_modifiers,
        },
    );
    *prev_line = line;
    *prev_start = start;
}

/// `encode(raws)`.
pub fn encode_tokens(raws: &Vec<RawToken>) -> (r: Vec<SemanticToken>)
    ensures
        r@ == encode(raws@),
{
    let mut tokens: Vec<SemanticToken> = Vec::new();
    let mut prev_line: u32 = 0;
    let mut prev_start: u32 = 0;
    let mut i: usize = 0;
    while i < raws.len()
        invariant
            i <= raws.len(),
            tokens@ == encode(raws@.take(i as int)),
            (prev_line, prev_start) == last_place(raws@.take(i as int)),
        decreases raws.len() - i,
    {
        let t = raws[i];
        proof {
            assert(raws@.take(i + 1).drop_last() =~= raws@.take(i as int));
            assert(raws@.take(i + 1).last() == t);
            if i > 0 {
                assert(raws@.take(i as int).last() == raws@[i - 1]);
            }
        }
        push_token(
            &mut tokens,
            &mut prev_line,
            &mut prev_start,
            t.line,
            t.start,
            t.length,
            t.token_type,
            t.token_modifiers,
        );
        i = i + 1;
    }
    assert(raws@.take(raws.len() as int) =~= raws@);
    tokens
}

/// The semantic tokens of a document, delta-encoded.
pub fn semantic_tokens(doc: &DocumentState) -> (r: Vec<SemanticToken>)
    ensures
        r@ == tokens_of(*doc),
{
    let tokens: Vec<SemanticToken> = Vec::new();
    if doc.ast.is_none() {
        return tokens;
    }
    let chars = chars_of(doc.text.as_str());
    let lines = split_lines(&chars);
    let raws = collect_raw_tokens(&lines);
    encode_tokens(&raws)
}

/// The absolute line and column each delta-encoded token stands at.
pub open spec fn decode(ts: Seq<SemanticToken>) -> Seq<(int, int)>
    decreases ts.len(),
{
    if ts.len() == 0 {
        Seq::empty()
    } else {
        let before = decode(ts.drop_last());
        let prev = if before.len() == 0 {
            (0int, 0int)
        } else {
            before.last()
        };
        let t = ts.last();
        let line = prev.0 + t.delta_line;
        let start = if t.delta_line == 0 {
            prev.1 + t.delta_start
        } else {
            t.delta_start as int
        };
        before.push((line, start))
    }
}

/// The line and column of each token.
pub open spec fn places(raws: Seq<RawToken>) -> Seq<(int, int)> {
    raws.map_values(|r: RawToken| (r.line as int, r.start as int))
}

/// The delta encoding loses nothing: decoding the encoded tokens gives back
/// the line and column of every token, when the tokens are in order.
pub proof fn law_decode_encode(raws: Seq<RawToken>)
    requires
        in_order(raws),
    ensures
        decode(encode(raws)) == places(raws),
    decreases raws.len(),
{
    if raws.len() > 0 {
        let prev = raws.drop_last();
        assert(in_order(prev)) by {
            assert forall|i: int| 0 < i < prev.len() implies (prev[i - 1].line < #[trigger] prev[i].line
                || (prev[i - 1].line == prev[i].line && prev[i - 1].start <= prev[i].start)) by {
                assert(prev[i] == raws[i]);
                assert(prev[i - 1] == raws[i - 1]);
            }
        }
        law_decode_encode(prev);
        let e = encode(raws);
        assert(e.drop_last() =~= encode(prev));
        if prev.len() > 0 {
            assert(raws[raws.len() - 1] == raws.last());
            assert(raws[raws.len() - 2] == prev.last());
        }
        assert(decode(e) =~= places(raws));
    } else {
        assert(places(raws) =~= Seq::<(int, int)>::empty());
    }
}

/// The semantic tokens of a parsed document, decoded, are at the places of
/// the names and decorators its lines declare (where its line numbers and
/// byte columns fit in 32 bits).
pub proof fn law_tokens_mark_declarations(doc: DocumentState)
    requires
        doc.ast is Some,
        lines_fit(lines_of(doc.text@)),
    ensures
        decode(tokens_of(doc)) == places(raw_tokens(lines_of(doc.text@))),
{
    law_tokens_sorted(lines_of(doc.text@));
    law_decode_encode(raw_tokens(lines_of(doc.text@)));
}

/// The kinds of token the server emits, as (type, modifier bits): a state
/// name (variable, declaration), a prop name (property, readonly), a memo
/// name (variable, readonly), an action name (function) or a decorator.
pub open spec fn known_kind(ty: u32, mods: u32) -> bool {
    ||| ty == 0 && mods == 1
    ||| ty == 1 && mods == 2
    ||| ty == 0 && mods == 2
    ||| ty == 2 && mods == 0
    ||| ty == 5 && mods == 0
}

/// Every token of `raws` is of a known kind.
pub open spec fn all_known(raws: Seq<RawToken>) -> bool {
    forall|i: int| 0 <= i < raws.len() ==> known_kind(#[trigger] raws[i].token_type, raws[i].token_modifiers)
}

proof fn lemma_known_concat(a: Seq<RawToken>, b: Seq<RawToken>)
    requires
        all_known(a),
        all_known(b),
    ensures
        all_known(a + b),
{
    assert forall|i: int| 0 <= i < (a + b).len() implies known_kind(
        #[trigger] (a + b)[i].token_type,
        (a + b)[i].token_modifiers,
    ) by {
        if i < a.len() {
            assert((a + b)[i] == a[i]);
        } else {
            assert((a + b)[i] == b[i - a.len()]);
        }
    }
}

proof fn lemma_raw_kinds(lines: Seq<Seq<char>>)
    ensures
        all_known(raw_tokens(lines)),
    decreases lines.len(),
{
    if lines.len() > 0 {
        lemma_raw_kinds(lines.drop_last());
        let no = u32_of(lines.len() - 1);
        let line = lines.last();
        let a = declared_name_token(no, line, "state "@, 6, 0, 1);
        let b = declared_name_token(no, line, "prop "@, 5, 1, 2);
        let c = declared_name_token(no, line, "memo "@, 5, 0, 2);
        let d = decorator_token(no, line);
        let e = action_token(no, line);
        assert(all_known(a));
        assert(all_known(b));
        assert(all_known(c));
        assert(all_known(d));
        assert(all_known(e));
        lemma_known_concat(a, b);
        lemma_known_concat(a + b, c);
        lemma_known_concat(a + b + c, d);
        lemma_known_concat(a + b + c + d, e);
        lemma_known_concat(raw_tokens(lines.drop_last()), line_tokens(no, line));
    }
}

proof fn lemma_encode_keeps_kinds(raws: Seq<RawToken>)
    ensures
        encode(raws).len() == raws.len(),
        forall|i: int|
            0 <= i < raws.len() ==> (#[trigger] encode(raws)[i]).token_type == raws[i].token_type
                && encode(raws)[i].token_modifiers_bitset == raws[i].token_modifiers,
    decreases raws.len(),
{
    if raws.len() > 0 {
        let prev = raws.drop_last();
        lemma_encode_keeps_kinds(prev);
        assert forall|i: int| 0 <= i < raws.len() implies (#[trigger] encode(raws)[i]).token_type
            == raws[i].token_type && encode(raws)[i].token_modifiers_bitset == raws[i].token_modifiers by {
            if i < prev.len() {
                assert(encode(raws)[i] == encode(prev)[i]);
                assert(prev[i] == raws[i]);
            }
        }
    }
}

/// Every semantic token lies inside the legend the server announces: its
/// type indexes `TOKEN_TYPES`, its modifier bits are among the bits of
/// `TOKEN_MODIFIERS`, and it is one of the five kinds of `known_kind`.
pub proof fn law_tokens_inside_legend(doc: DocumentState)
    ensures
        forall|i: int|
            0 <= i < tokens_of(doc).len() ==> {
                let t = #[trigger] tokens_of(doc)[i];
                &&& known_kind(t.token_type, t.token_modifiers_bitset)
                &&& t.token_type < TOKEN_TYPES@.len()
                &&& t.token_modifiers_bitset < 8
                &&& TOKEN_MODIFIERS@.len() == 3
            },
{
    if doc.ast is Some {
        let raws = raw_tokens(lines_of(doc.text@));
        lemma_raw_kinds(lines_of(doc.text@));
        lemma_encode_keeps_kinds(raws);
        assert forall|i: int| 0 <= i < tokens_of(doc).len() implies known_kind(
            (#[trigger] tokens_of(doc)[i]).token_type,
            tokens_of(doc)[i].token_modifiers_bitset,
        ) by {
            assert(known_kind(raws[i].token_type, raws[i].token_modifiers));
        }
    }
}

/// Every line number and byte column of `lines` fits in 32 bits: at most
/// 2^32 lines, each shorter than 2^32 bytes.
pub open spec fn lines_fit(lines: Seq<Seq<char>>) -> bool {
    &&& lines.len() <= 0x1_0000_0000
    &&& forall|i: int| 0 <= i < lines.len() ==> byte_len(#[trigger] lines[i]) < 0x1_0000_0000
}

proof fn lemma_bytes_at_least_chars(s: Seq<char>)
    ensures
        s.len() <= byte_len(s),
    decreases s.len(),
{
    if s.len() > 0 {
        lemma_bytes_at_least_chars(s.drop_last());
    }
}

proof fn lemma_prefix_bytes(s: Seq<char>, i: int)
    requires
        0 <= i <= s.len(),
    ensures
        i <= byte_len(s.take(i)) <= byte_len(s),
{
    lemma_bytes_at_least_chars(s.take(i));
    lemma_byte_len_append(s.take(i), s.skip(i));
    assert(s.take(i) + s.skip(i) =~= s);
}

/// The byte room a line gives its tokens: its leading whitespace and its
/// trimmed text together are no longer than the line.
proof fn lemma_line_room(line: Seq<char>)
    ensures
        0 <= lead_bytes(line),
        lead_bytes(line) + byte_len(trim(line)) <= byte_len(line),
{
    crate::text::lemma_trim_start_suffix(line);
    let u = trim_start(line);
    let a = line.len() - u.len();
    lemma_byte_len_append(line.take(a), line.skip(a));
    assert(line.take(a) + line.skip(a) =~= line);
    crate::text::lemma_trim_end_prefix(u);
    lemma_prefix_bytes(u, trim(line).len() as int);
}

proof fn lemma_u32_of_id(x: int)
    requires
        0 <= x < 0x1_0000_0000,
    ensures
        u32_of(x) == x,
{
    lemma_u32_of_small(x);
}

/// The tokens of one line are on that line, at most two, and in order.
proof fn lemma_line_sorted(no: u32, line: Seq<char>)
    requires
        byte_len(line) < 0x1_0000_0000,
    ensures
        forall|k: int| 0 <= k < line_tokens(no, line).len() ==> (#[trigger] line_tokens(no, line)[k]).line == no,
        in_order(line_tokens(no, line)),
{
    reveal_strlit("state ");
    reveal_strlit("prop ");
    reveal_strlit("memo ");
    reveal_strlit("#[permission");
    reveal_strlit("#[audit");
    reveal_strlit("fn ");
    let t = trim(line);
    let lb = lead_bytes(line);
    lemma_line_room(line);
    let a = declared_name_token(no, line, "state "@, 6, 0, 1);
    let b = declared_name_token(no, line, "prop "@, 5, 1, 2);
    let c = declared_name_token(no, line, "memo "@, 5, 0, 2);
    let d = decorator_token(no, line);
    let e = action_token(no, line);
    let x = a + b + c + d;
    assert(line_tokens(no, line) == x + e);
    // At most one name or decorator: they start with different characters.
    assert(a.len() + b.len() + c.len() + d.len() <= 1) by {
        if a.len() > 0 {
            assert(starts_with(t, "state "@));
            assert(t.take(6)[0] == t[0]);
            assert(t[0] == 's');
        }
        if b.len() > 0 {
            assert(starts_with(t, "prop "@));
            assert(t.take(5)[0] == t[0]);
            assert(t[0] == 'p');
        }
        if c.len() > 0 {
            assert(starts_with(t, "memo "@));
            assert(t.take(5)[0] == t[0]);
            assert(t[0] == 'm');
        }
        if d.len() > 0 {
            if starts_with(t, "#[permission"@) {
                assert(t.take(12)[0] == t[0]);
            } else {
                assert(starts_with(t, "#[audit"@));
                assert(t.take(7)[0] == t[0]);
            }
            assert(t[0] == '#');
        }
    }
    // Where such a token is, it starts no later than an action name.
    if x.len() == 1 && e.len() == 1 {
        lemma_find_from_props(t, "fn "@, 0);
        let p = find(t, "fn "@)->0;
        assert(crate::text::occurs_at(t, "fn "@, p));
        assert(t.subrange(p, p + 3)[0] == 'f');
        assert(t[p] == 'f');
        lemma_prefix_bytes(t, p);
        lemma_prefix_bytes(t, p + 3);
        lemma_byte_len_append(t.take(p), t.subrange(p, p + 3));
        assert(t.take(p) + t.subrange(p, p + 3) =~= t.take(p + 3));
        assert(byte_len(t.subrange(p, p + 3)) == 3) by {
            let f = t.subrange(p, p + 3);
            assert(f =~= "fn "@);
            let f1 = f.drop_last();
            let f2 = f1.drop_last();
            let f3 = f2.drop_last();
            assert(f3 =~= Seq::<char>::empty());
            assert(f2.last() == 'f' && f1.last() == 'n' && f.last() == ' ');
            assert(byte_len(f2) == byte_len(f3) + char_width(f2.last()));
            assert(byte_len(f1) == byte_len(f2) + char_width(f1.last()));
            assert(byte_len(f) == byte_len(f1) + char_width(f.last()));
        }
        let es = lb + byte_len(t.take(p)) + 3;
        assert(es <= lb + byte_len(t));
        lemma_u32_of_id(es);
        assert(e[0].start == es);
        if d.len() == 1 {
            lemma_u32_of_id(lb);
            assert(x[0] == d[0]);
        } else {
            let k: int = if a.len() == 1 { 6 } else { 5 };
            assert(p >= 3) by {
                if p < 3 {
                    if a.len() == 1 {
                        assert(starts_with(t, "state "@));
                        assert(t.take(6)[p] == t[p]);
                    } else if b.len() == 1 {
                        assert(starts_with(t, "prop "@));
                        assert(t.take(5)[p] == t[p]);
                    } else {
                        assert(starts_with(t, "memo "@));
                        assert(t.take(5)[p] == t[p]);
                    }
                    assert(t[p] != 'f');
                }
            }
            lemma_bytes_at_least_chars(t);
            lemma_u32_of_id(lb + k);
            if a.len() == 1 {
                assert(x[0] == a[0]);
            } else if b.len() == 1 {
                assert(x[0] == b[0]);
            } else {
                assert(x[0] == c[0]);
            }
        }
        assert((x + e)[1] == e[0]);
        assert((x + e)[0] == x[0]);
    }
    assert forall|k: int| 0 <= k < (x + e).len() implies (#[trigger] (x + e)[k]).line == no by {
        if k < x.len() {
            if k < a.len() {
                assert((x + e)[k] == a[k]);
            } else if k < a.len() + b.len() {
                assert((x + e)[k] == b[k - a.len()]);
            } else if k < a.len() + b.len() + c.len() {
                assert((x + e)[k] == c[k - a.len() - b.len()]);
            } else {
                assert((x + e)[k] == d[k - a.len() - b.len() - c.len()]);
            }
        } else {
            assert((x + e)[k] == e[k - x.len()]);
        }
    }
}

/// Emitted by place: where line numbers and columns fit in 32 bits, the
/// tokens of a document come in order, each after the one before it.
pub proof fn law_tokens_sorted(lines: Seq<Seq<char>>)
    requires
        lines_fit(lines),
    ensures
        in_order(raw_tokens(lines)),
        forall|k: int| 0 <= k < raw_tokens(lines).len() ==> (#[trigger] raw_tokens(lines)[k]).line < lines.len(),
    decreases lines.len(),
{
    if lines.len() > 0 {
        let prev = lines.drop_last();
        assert forall|i: int| 0 <= i < prev.len() implies byte_len(#[trigger] prev[i]) < 0x1_0000_0000 by {
            assert(prev[i] == lines[i]);
        }
        law_tokens_sorted(prev);
        let n = lines.len() - 1;
        lemma_u32_of_id(n);
        let no = u32_of(n);
        assert(byte_len(lines[n]) < 0x1_0000_0000);
        lemma_line_sorted(no, lines.last());
        let r = raw_tokens(prev);
        let lt = line_tokens(no, lines.last());
        assert(raw_tokens(lines) == r + lt);
        assert forall|k: int| 0 <= k < (r + lt).len() implies (#[trigger] (r + lt)[k]).line < lines.len() by {
            if k < r.len() {
                assert((r + lt)[k] == r[k]);
            } else {
                assert((r + lt)[k] == lt[k - r.len()]);
            }
        }
        assert forall|i: int| 0 < i < (r + lt).len() implies ((r + lt)[i - 1].line < #[trigger] (r
            + lt)[i].line || ((r + lt)[i - 1].line == (r + lt)[i].line && (r + lt)[i - 1].start <= (r
            + lt)[i].start)) by {
            if i < r.len() {
                assert((r + lt)[i] == r[i]);
                assert((r + lt)[i - 1] == r[i - 1]);
            } else if i == r.len() {
                assert((r + lt)[i] == lt[0]);
                assert((r + lt)[i - 1] == r[i - 1]);
                assert(r[i - 1].line < prev.len());
            } else {
                assert((r + lt)[i] == lt[i - r.len()]);
                assert((r + lt)[i - 1] == lt[i - 1 - r.len()]);
            }
        }
    }
}

} // verus!
