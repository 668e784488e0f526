//! Go to definition: from the word under the cursor to the first line that
//! declares it (a state, prop or memo line, or the `fn` line of an action,
//! loader or server function of that name).
use vstd::prelude::*;
use crate::document::DocumentState;
use crate::outline::ScriptOutline;
use crate::protocol::{make_range, span, Location, Position, Range};
use crate::text::{
    byte_len, byte_len_u32, chars_of, eq_chars, extract_word, is_word, is_word_char, lines_of,
    lines_view, occurs_at, occurs_at_exec, push_all, split_lines, trim, trimmed, u32_of, word_at,
};

verus! {

/// Some name of `names` is `w`.
pub open spec fn has_name(names: Seq<Seq<char>>, w: Seq<char>) -> bool {
    exists|k: int| 0 <= k < names.len() && names[k] == w
}

/// The names of the actions, loaders and server functions of a script block.
pub open spec fn fn_names(script: ScriptOutline) -> Seq<Seq<char>> {
    script.actions@.map_values(|a: crate::outline::ActionInfo| a.name@) + script.loaders@.map_values(
        |n: String| n@,
    ) + script.server_fns@.map_values(|n: String| n@)
}

/// No identifier character stands at index `k` of `t` (it is past the end,
/// or another kind of character).
pub open spec fn ends_word(t: Seq<char>, k: int) -> bool {
    !(0 <= k < t.len() && is_word_char(t[k]))
}

/// `key` stands in `t` at index `p`, and no identifier character follows it:
/// the name that ends `key` is whole there.
pub open spec fn names_at(t: Seq<char>, key: Seq<char>, p: int) -> bool {
    occurs_at(t, key, p) && ends_word(t, p + key.len())
}

/// `key` stands somewhere in `t` with no identifier character after it.
pub open spec fn names_somewhere(t: Seq<char>, key: Seq<char>) -> bool {
    exists|p: int| #[trigger] names_at(t, key, p)
}

/// A (trimmed) line declares `w`: it starts with `state w`, `prop w` or
/// `memo w`, or it holds `fn w` and `w` names an action, loader or server
/// function; in each case the name `w` is whole there (no identifier
/// character follows it), so that `count` is not declared by `state counter`.
pub open spec fn declares(t: Seq<char>, w: Seq<char>, script: ScriptOutline) -> bool {
    ||| names_at(t, "state "@ + w, 0)
    ||| names_at(t, "prop "@ + w, 0)
    ||| names_at(t, "memo "@ + w, 0)
    ||| names_somewhere(t, "fn "@ + w) && has_name(fn_names(script), w)
}

/// The first line at or after `i` that declares `w`.
pub open spec fn first_declaration(
    lines: Seq<Seq<char>>,
    w: Seq<char>,
    script: ScriptOutline,
    i: int,
) -> Option<int>
    decreases lines.len() - i,
{
    if i < 0 || i >= lines.len() {
        None
    } else if declares(trim(lines[i]), w, script) {
        Some(i)
    } else {
        first_declaration(lines, w, script, i + 1)
    }
}

/// The whole of line `i`: from its start to its byte length, truncated to 32 bits.
pub open spec fn line_span(lines: Seq<Seq<char>>, i: int) -> Range {
    span(u32_of(i), 0, u32_of(i), u32_of(byte_len(lines[i]) as int))
}

/// Where the word under `pos` is declared: `None` past the last line, where
/// no word is under the cursor, where the document did not parse or has no
/// script block, or where no line declares the word.
pub open spec fn definition_of(doc: DocumentState, pos: Position) -> Option<Range> {
    let lines = lines_of(doc.text@);
    if pos.line >= lines.len() {
        None
    } else {
        match word_at(lines[pos.line as int], pos.character as int) {
            None => None,
            Some(w) => match doc.ast {
                None => None,
                Some(o) => match o.script {
                    None => None,
                    Some(script) => match first_declaration(lines, w, script, 0) {
                        None => None,
                        Some(i) => Some(line_span(lines, i)),
                    },
                },
            },
        }
    }
}

fn prefixed(prefix: &str, w: &Vec<char>) -> (r: Vec<char>)
    ensures
        r@ == prefix@ + w@,
{
    let mut r = chars_of(prefix);
    push_all(&mut r, w);
    r
}

fn names_at_exec(t: &Vec<char>, key: &Vec<char>, p: usize) -> (b: bool)
    ensures
        b == names_at(t@, key@, p as int),
{
    if !occurs_at_exec(t, key, p) {
        return false;
    }
    let n: usize = t.len();
    let k: usize = key.len();
    assert(p + k <= n);
    let end: usize = p + k;
    end >= n || !is_word(t[end])
}

fn names_somewhere_exec(t: &Vec<char>, key: &Vec<char>) -> (b: bool)
    ensures
        b == names_somewhere(t@, key@),
{
    let mut p: usize = 0;
    while p < t.len()
        invariant
            p <= t.len(),
            forall|q: int| 0 <= q < p ==> !names_at(t@, key@, q),
        decreases t.len() - p,
    {
        if names_at_exec(t, key, p) {
            return true;
        }
        p = p + 1;
    }
    if names_at_exec(t, key, t.len()) {
        return true;
    }
    assert forall|q: int| !(#[trigger] names_at(t@, key@, q)) by {
        if q > t.len() {
            assert(!occurs_at(t@, key@, q));
        }
    }
    false
}

fn any_named(names: &Vec<String>, w: &Vec<char>) -> (b: bool)
    ensures
        b == has_name(names@.map_values(|n: String| n@), w@),
{
    let ghost all = names@.map_values(|n: String| n@);
    let mut k: usize = 0;
    while k < names.len()
        invariant
            all == names@.map_values(|n: String| n@),
            k <= names.len(),
            forall|m: int| 0 <= m < k ==> all[m] != w@,
        decreases names.len() - k,
    {
        let n = chars_of(names[k].as_str());
        if eq_chars(&n, w) {
            assert(all[k as int] == w@);
            return true;
        }
        k = k + 1;
    }
    false
}

fn fn_named(script: &ScriptOutline, w: &Vec<char>) -> (b: bool)
    ensures
        b == has_name(fn_names(*script), w@),
{
    let ghost acts = script.actions@.map_values(|a: crate::outline::ActionInfo| a.name@);
    let ghost loaders = script.loaders@.map_values(|n: String| n@);
    let ghost servers = script.server_fns@.map_values(|n: String| n@);
    let ghost all = fn_names(*script);
    assert(all == acts + loaders + servers);
    let mut found = false;
    let mut k: usize = 0;
    while k < script.actions.len()
        invariant
            acts == script.actions@.map_values(|a: crate::outline::ActionInfo| a.name@),
            k <= script.actions.len(),
            found == has_name(acts.take(k as int), w@),
        decreases script.actions.len() - k,
    {
        let n = chars_of(script.actions[k].name.as_str());
        let eq = eq_chars(&n, w);
        proof {
            let t1 = acts.take(k + 1);
            assert(t1 =~= acts.take(k as int).push(acts[k as int]));
            if has_name(t1, w@) && !eq {
                let m = choose|m: int| 0 <= m < t1.len() && t1[m] == w@;
                assert(m < k);
                assert(acts.take(k as int)[m] == w@);
            }
            if eq {
                assert(t1[k as int] == w@);
            }
            if found {
                let m = choose|m: int| 0 <= m < k && acts.take(k as int)[m] == w@;
                assert(t1[m] == w@);
            }
        }
        found = found || eq;
        k = k + 1;
    }
    assert(acts.take(script.actions.len() as int) =~= acts);
    let in_loaders = any_named(&script.loaders, w);
    let in_servers = any_named(&script.server_fns, w);
    proof {
        if has_name(all, w@) {
            let m = choose|m: int| 0 <= m < all.len() && all[m] == w@;
            if m < acts.len() {
                assert(acts[m] == w@);
            } else if m < acts.len() + loaders.len() {
                assert(loaders[m - acts.len()] == w@);
            } else {
                assert(servers[m - acts.len() - loaders.len()] == w@);
            }
        }
        if found {
            let m = choose|m: int| 0 <= m < acts.len() && acts[m] == w@;
            assert(all[m] == w@);
        }
        if in_loaders {
            let m = choose|m: int| 0 <= m < loaders.len() && loaders[m] == w@;
            assert(all[acts.len() + m] == w@);
        }
        if in_servers {
            let m = choose|m: int| 0 <= m < servers.len() && servers[m] == w@;
            assert(all[acts.len() + loaders.len() + m] == w@);
        }
    }
    found || in_loaders || in_servers
}

/// Where the word under the cursor is declared, in the document at `uri`.
pub fn goto_definition(doc: &DocumentState, position: Position, uri: &str) -> (r: Option<Location>)
    ensures
        r matches Some(l) ==> l.uri@ == uri@ && definition_of(*doc, position) == Some(l.range),
        r is None ==> definition_of(*doc, position) is None,
{
    let chars = chars_of(doc.text.as_str());
    let lines = split_lines(&chars);
    let ghost all = lines_view(lines@);
    let line_idx = position.line as usize;
    if line_idx >= lines.len() {
        return None;
    }
    let word = match extract_word(&lines[line_idx], position.character) {
        Some(w) => w,
        None => return None,
    };
    let script = match &doc.ast {
        Some(o) => match &o.script {
            Some(s) => s,
            None => return None,
        },
        None => return None,
    };
    let state_w = prefixed("state ", &word);
    let prop_w = prefixed("prop ", &word);
    let memo_w = prefixed("memo ", &word);
    let fn_w = prefixed("fn ", &word);
    let named = fn_named(script, &word);
    proof {
        assert(all[line_idx as int] == lines[line_idx as int]@);
    }
    let ghost expected = match first_declaration(all, word@, *script, 0) {
        None => None,
        Some(k) => Some(line_span(all, k)),
    };
    assert(definition_of(*doc, position) == expected);
    let mut i: usize = 0;
    while i < lines.len()
        invariant
            all == lines_view(lines@),
            all == lines_of(doc.text@),
            i <= lines.len(),
            first_declaration(all, word@, *script, 0) == first_declaration(
                all,
                word@,
                *script,
                i as int,
            ),
            state_w@ == "state "@ + word@,
            prop_w@ == "prop "@ + word@,
            memo_w@ == "memo "@ + word@,
            fn_w@ == "fn "@ + word@,
            named == has_name(fn_names(*script), word@),
            definition_of(*doc, position) == expected,
            expected == match first_declaration(all, word@, *script, 0) {
                None => None,
                Some(k) => Some(line_span(all, k)),
            },
        decreases lines.len() - i,
    {
        let t = trimmed(&lines[i]);
        if names_at_exec(&t, &state_w, 0) || names_at_exec(&t, &prop_w, 0) || names_at_exec(
            &t,
            &memo_w,
            0,
        ) || (named && names_somewhere_exec(&t, &fn_w)) {
            let end = byte_len_u32(&lines[i], 0, lines[i].len());
            let n = (i as u64 % 0x1_0000_0000) as u32;
            proof {
                assert(all[i as int] == lines[i as int]@);
                assert(lines[i as int]@.subrange(0, lines[i as int]@.len() as int) =~= all[i as int]);
                assert(declares(trim(all[i as int]), word@, *script));
                assert(first_declaration(all, word@, *script, i as int) == Some(i as int));
                assert(n == u32_of(i as int));
            }
            let loc_uri = crate::text::string_of(&chars_of(uri));
            return Some(Location { uri: loc_uri, range: make_range(n, 0, n, end) });
        }
        i = i + 1;
    }
    None
}

proof fn lemma_first_declaration(lines: Seq<Seq<char>>, w: Seq<char>, script: ScriptOutline, from: int)
    requires
        0 <= from,
    ensures
        first_declaration(lines, w, script, from) matches Some(i) ==> {
            &&& from <= i < lines.len()
            &&& declares(trim(lines[i]), w, script)
            &&& forall|j: int| from <= j < i ==> !declares(#[trigger] trim(lines[j]), w, script)
        },
        first_declaration(lines, w, script, from) is None ==> forall|j: int|
            from <= j < lines.len() ==> !declares(#[trigger] trim(lines[j]), w, script),
    decreases lines.len() - from,
{
    if from < lines.len() && !declares(trim(lines[from]), w, script) {
        lemma_first_declaration(lines, w, script, from + 1);
    }
}

/// Go to definition leads to the first line that declares the word under
/// the cursor, and to the whole of that line; where it leads nowhere, no
/// line declares the word.
pub proof fn law_definition_is_first_declaration(doc: DocumentState, pos: Position)
    ensures
        definition_of(doc, pos) matches Some(r) ==> {
            let lines = lines_of(doc.text@);
            let w = word_at(lines[pos.line as int], pos.character as int)->0;
            let script = doc.ast->0.script->0;
            exists|i: int|
                #![trigger lines[i]]
                0 <= i < lines.len() && r == line_span(lines, i) && declares(trim(lines[i]), w, script)
                    && forall|j: int| 0 <= j < i ==> !declares(#[trigger] trim(lines[j]), w, script)
        },
{
    let lines = lines_of(doc.text@);
    if pos.line < lines.len() {
        if let Some(w) = word_at(lines[pos.line as int], pos.character as int) {
            if let Some(o) = doc.ast {
                if let Some(script) = o.script {
                    lemma_first_declaration(lines, w, script, 0);
                    if let Some(i) = first_declaration(lines, w, script, 0) {
                        assert(lines[i] == lines[i]);
                    }
                }
            }
        }
    }
}


/// Functions are found whatever their modifiers: where some line holds
/// `fn ` followed by the whole word under the cursor, and that word names an
/// action, loader or server function of the script block, go to definition
/// leads somewhere, to that line or an earlier declaration (`async` or not).
pub proof fn law_fn_declaration_found(doc: DocumentState, pos: Position, j: int, p: int)
    requires
        doc.ast is Some,
        doc.ast->0.script is Some,
        pos.line < lines_of(doc.text@).len(),
        word_at(lines_of(doc.text@)[pos.line as int], pos.character as int) is Some,
        0 <= j < lines_of(doc.text@).len(),
        occurs_at(
            trim(lines_of(doc.text@)[j]),
            "fn "@ + word_at(lines_of(doc.text@)[pos.line as int], pos.character as int)->0,
            p,
        ),
        ends_word(
            trim(lines_of(doc.text@)[j]),
            p + 3 + word_at(lines_of(doc.text@)[pos.line as int], pos.character as int)->0.len(),
        ),
        has_name(
            fn_names(doc.ast->0.script->0),
            word_at(lines_of(doc.text@)[pos.line as int], pos.character as int)->0,
        ),
    ensures
        definition_of(doc, pos) matches Some(r) && exists|i: int|
            0 <= i <= j && r == line_span(lines_of(doc.text@), i),
{
    reveal_strlit("fn ");
    let lines = lines_of(doc.text@);
    let w = word_at(lines[pos.line as int], pos.character as int)->0;
    let script = doc.ast->0.script->0;
    let t = trim(lines[j]);
    assert(("fn "@ + w).len() == 3 + w.len());
    assert(names_at(t, "fn "@ + w, p));
    assert(declares(t, w, script));
    lemma_first_declaration(lines, w, script, 0);
    let i = first_declaration(lines, w, script, 0)->0;
    assert(i <= j);
}

} // verus!
