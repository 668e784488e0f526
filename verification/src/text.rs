//! Character-level text model shared by every feature of the server:
//! line splitting as `str::lines` does it, whitespace trimming as `str::trim`
//! does it, prefix/suffix/substring tests, and UTF-8 byte lengths (the server
//! reports byte offsets and byte lengths, as the editor protocol code it
//! talks to was written for).
use vstd::prelude::*;

verus! {

// ---------------------------------------------------------------------------
// Characters
// ---------------------------------------------------------------------------

/// `char::is_whitespace`: the Unicode `White_Space` property.
pub open spec fn is_ws(c: char) -> bool {
    ||| c == '\t'
    ||| c == '\n'
    ||| c == '\u{0B}'
    ||| c == '\u{0C}'
    ||| c == '\r'
    ||| c == ' '
    ||| c == '\u{85}'
    ||| c == '\u{A0}'
    ||| c == '\u{1680}'
    ||| ('\u{2000}' <= c && c <= '\u{200A}')
    ||| c == '\u{2028}'
    ||| c == '\u{2029}'
    ||| c == '\u{202F}'
    ||| c == '\u{205F}'
    ||| c == '\u{3000}'
}

/// An identifier character: an ASCII letter, an ASCII digit or `_`.
pub open spec fn is_word_char(c: char) -> bool {
    ||| ('a' <= c && c <= 'z')
    ||| ('A' <= c && c <= 'Z')
    ||| ('0' <= c && c <= '9')
    ||| c == '_'
}

pub fn is_ws_char(c: char) -> (b: bool)
    ensures
        b == is_ws(c),
{
    c == '\t' || c == '\n' || c == '\u{0B}' || c == '\u{0C}' || c == '\r' || c == ' ' || c
        == '\u{85}' || c == '\u{A0}' || c == '\u{1680}' || ('\u{2000}' <= c && c <= '\u{200A}')
        || c == '\u{2028}' || c == '\u{2029}' || c == '\u{202F}' || c == '\u{205F}' || c
        == '\u{3000}'
}

pub fn is_word(c: char) -> (b: bool)
    ensures
        b == is_word_char(c),
{
    ('a' <= c && c <= 'z') || ('A' <= c && c <= 'Z') || ('0' <= c && c <= '9') || c == '_'
}

// ---------------------------------------------------------------------------
// Trimming
// ---------------------------------------------------------------------------

/// `str::trim_start`.
pub open spec fn trim_start(s: Seq<char>) -> Seq<char>
    decreases s.len(),
{
    if s.len() > 0 && is_ws(s[0]) {
        trim_start(s.drop_first())
    } else {
        s
    }
}

/// `str::trim_end`.
pub open spec fn trim_end(s: Seq<char>) -> Seq<char>
    decreases s.len(),
{
    if s.len() > 0 && is_ws(s.last()) {
        trim_end(s.drop_last())
    } else {
        s
    }
}

/// `str::trim`: whitespace removed at both ends.
pub open spec fn trim(s: Seq<char>) -> Seq<char> {
    trim_end(trim_start(s))
}

proof fn lemma_trim_start_skip(s: Seq<char>, a: int)
    requires
        0 <= a <= s.len(),
        forall|k: int| 0 <= k < a ==> is_ws(#[trigger] s[k]),
    ensures
        trim_start(s) == trim_start(s.skip(a)),
    decreases a,
{
    if a > 0 {
        assert(s.skip(1) =~= s.drop_first());
        lemma_trim_start_skip(s.drop_first(), a - 1);
        assert(s.drop_first().skip(a - 1) =~= s.skip(a));
    } else {
        assert(s.skip(0) =~= s);
    }
}

proof fn lemma_trim_end_take(s: Seq<char>, b: int)
    requires
        0 <= b <= s.len(),
        forall|k: int| b <= k < s.len() ==> is_ws(#[trigger] s[k]),
    ensures
        trim_end(s) == trim_end(s.take(b)),
    decreases s.len() - b,
{
    if b < s.len() {
        lemma_trim_end_take(s.drop_last(), b);
        assert(s.drop_last().take(b) =~= s.take(b));
    } else {
        assert(s.take(b) =~= s);
    }
}

/// Where the text of `trim(s)` stands in `s`.
pub fn trim_bounds(s: &Vec<char>) -> (r: (usize, usize))
    ensures
        r.0 <= r.1 <= s.len(),
        trim_start(s@) == s@.skip(r.0 as int),
        trim(s@) == s@.subrange(r.0 as int, r.1 as int),
{
    let mut a: usize = 0;
    while a < s.len() && is_ws_char(s[a])
        invariant
            a <= s.len(),
            forall|k: int| 0 <= k < a ==> is_ws(#[trigger] s@[k]),
        decreases s.len() - a,
    {
        a = a + 1;
    }
    proof {
        lemma_trim_start_skip(s@, a as int);
        let t = s@.skip(a as int);
        if t.len() > 0 {
            assert(t[0] == s@[a as int]);
        }
    }
    let mut b: usize = s.len();
    while b > a && is_ws_char(s[b - 1])
        invariant
            a <= b <= s.len(),
            forall|k: int| b <= k < s.len() ==> is_ws(#[trigger] s@[k]),
        decreases b,
    {
        b = b - 1;
    }
    proof {
        let t = s@.skip(a as int);
        let tb = (b - a) as int;
        assert forall|k: int| tb <= k < t.len() implies is_ws(#[trigger] t[k]) by {
            assert(t[k] == s@[a + k]);
        }
        lemma_trim_end_take(t, tb);
        assert(t.take(tb) =~= s@.subrange(a as int, b as int));
        let u = s@.subrange(a as int, b as int);
        if u.len() > 0 {
            assert(u.last() == s@[b - 1]);
        }
    }
    (a, b)
}

/// The characters of `s` from `from` up to `to`.
pub fn slice_chars(s: &Vec<char>, from: usize, to: usize) -> (r: Vec<char>)
    requires
        from <= to <= s.len(),
    ensures
        r@ == s@.subrange(from as int, to as int),
{
    let mut r: Vec<char> = Vec::new();
    let mut i = from;
    while i < to
        invariant
            from <= i <= to <= s.len(),
            r@ == s@.subrange(from as int, i as int),
        decreases to - i,
    {
        r.push(s[i]);
        i = i + 1;
        assert(r@ =~= s@.subrange(from as int, i as int));
    }
    r
}

/// `trim(s)`, as a new vector.
pub fn trimmed(s: &Vec<char>) -> (r: Vec<char>)
    ensures
        r@ == trim(s@),
{
    let (a, b) = trim_bounds(s);
    slice_chars(s, a, b)
}

// ---------------------------------------------------------------------------
// Prefixes, suffixes, occurrences
// ---------------------------------------------------------------------------

/// `str::starts_with`.
pub open spec fn starts_with(s: Seq<char>, p: Seq<char>) -> bool {
    p.len() <= s.len() && s.take(p.len() as int) == p
}

/// `str::ends_with`.
pub open spec fn ends_with(s: Seq<char>, p: Seq<char>) -> bool {
    p.len() <= s.len() && s.skip(s.len() - p.len()) == p
}

/// `p` stands in `s` at character index `i`.
pub open spec fn occurs_at(s: Seq<char>, p: Seq<char>, i: int) -> bool {
    0 <= i && i + p.len() <= s.len() && s.subrange(i, i + p.len()) == p
}

/// The first index at or after `i` where `p` stands in `s`.
pub open spec fn find_from(s: Seq<char>, p: Seq<char>, i: int) -> Option<int>
    decreases s.len() + 1 - i,
{
    if i < 0 || i + p.len() > s.len() {
        None
    } else if occurs_at(s, p, i) {
        Some(i)
    } else {
        find_from(s, p, i + 1)
    }
}

/// `str::find`, counted in characters.
pub open spec fn find(s: Seq<char>, p: Seq<char>) -> Option<int> {
    find_from(s, p, 0)
}

/// `str::contains`.
pub open spec fn contains(s: Seq<char>, p: Seq<char>) -> bool {
    find(s, p) is Some
}

pub proof fn lemma_find_from_props(s: Seq<char>, p: Seq<char>, i: int)
    requires
        0 <= i,
    ensures
        find_from(s, p, i) matches Some(k) ==> i <= k && occurs_at(s, p, k) && forall|j: int|
            i <= j < k ==> !occurs_at(s, p, j),
        find_from(s, p, i) is None ==> forall|j: int| i <= j ==> !occurs_at(s, p, j),
    decreases s.len() + 1 - i,
{
    if i + p.len() > s.len() {
    } else if occurs_at(s, p, i) {
    } else {
        lemma_find_from_props(s, p, i + 1);
    }
}

pub fn has_prefix(s: &Vec<char>, p: &Vec<char>) -> (b: bool)
    ensures
        b == starts_with(s@, p@),
{
    if p.len() > s.len() {
        return false;
    }
    let mut i: usize = 0;
    while i < p.len()
        invariant
            p.len() <= s.len(),
            i <= p.len(),
            forall|k: int| 0 <= k < i ==> s@[k] == p@[k],
        decreases p.len() - i,
    {
        if s[i] != p[i] {
            assert(s@.take(p.len() as int)[i as int] != p@[i as int]);
            return false;
        }
        i = i + 1;
    }
    assert(s@.take(p.len() as int) =~= p@);
    true
}

pub fn has_suffix(s: &Vec<char>, p: &Vec<char>) -> (b: bool)
    ensures
        b == ends_with(s@, p@),
{
    if p.len() > s.len() {
        return false;
    }
    let off = s.len() - p.len();
    let mut i: usize = 0;
    while i < p.len()
        invariant
            p.len() <= s.len(),
            off == s.len() - p.len(),
            i <= p.len(),
            forall|k: int| 0 <= k < i ==> s@[off + k] == p@[k],
        decreases p.len() - i,
    {
        if s[off + i] != p[i] {
            assert(s@.skip(off as int)[i as int] != p@[i as int]);
            return false;
        }
        i = i + 1;
    }
    assert(s@.skip(off as int) =~= p@);
    true
}

/// `p` stands in `s` at index `i`.
pub fn occurs_at_exec(s: &Vec<char>, p: &Vec<char>, i: usize) -> (b: bool)
    ensures
        b == occurs_at(s@, p@, i as int),
{
    if i > s.len() || p.len() > s.len() - i {
        return false;
    }
    let mut k: usize = 0;
    while k < p.len()
        invariant
            i + p.len() <= s.len(),
            k <= p.len(),
            forall|m: int| 0 <= m < k ==> s@[i + m] == p@[m],
        decreases p.len() - k,
    {
        if s[i + k] != p[k] {
            assert(s@.subrange(i as int, i + p.len())[k as int] != p@[k as int]);
            return false;
        }
        k = k + 1;
    }
    assert(s@.subrange(i as int, i + p.len()) =~= p@);
    true
}

/// `find(s, p)`.
pub fn find_exec(s: &Vec<char>, p: &Vec<char>) -> (r: Option<usize>)
    ensures
        r matches Some(k) ==> find(s@, p@) == Some(k as int),
        r is None ==> find(s@, p@) is None,
{
    if p.len() > s.len() {
        return None;
    }
    let last = s.len() - p.len();
    let mut i: usize = 0;
    while i < last
        invariant
            i <= last,
            last == s.len() - p.len(),
            p.len() <= s.len(),
            find(s@, p@) == find_from(s@, p@, i as int),
        decreases last - i,
    {
        if occurs_at_exec(s, p, i) {
            return Some(i);
        }
        i = i + 1;
    }
    if occurs_at_exec(s, p, i) {
        return Some(i);
    }
    assert(find_from(s@, p@, i + 1) is None);
    None
}

pub fn contains_exec(s: &Vec<char>, p: &Vec<char>) -> (b: bool)
    ensures
        b == contains(s@, p@),
{
    find_exec(s, p).is_some()
}

pub fn eq_chars(a: &Vec<char>, b: &Vec<char>) -> (r: bool)
    ensures
        r == (a@ == b@),
{
    if a.len() != b.len() {
        return false;
    }
    let mut i: usize = 0;
    while i < a.len()
        invariant
            a.len() == b.len(),
            i <= a.len(),
            forall|k: int| 0 <= k < i ==> a@[k] == b@[k],
        decreases a.len() - i,
    {
        if a[i] != b[i] {
            return false;
        }
        i = i + 1;
    }
    assert(a@ =~= b@);
    true
}

// ---------------------------------------------------------------------------
// Building text
// ---------------------------------------------------------------------------

/// The characters of `s`, in order.
pub fn chars_of(s: &str) -> (v: Vec<char>)
    ensures
        v@ == s@,
{
    let mut v: Vec<char> = Vec::new();
    for c in it: s.chars()
        invariant
            v@ == it.seq().take(it.index()),
    {
        v.push(c);
    }
    v
}

pub fn push_all(dst: &mut Vec<char>, src: &Vec<char>)
    ensures
        final(dst)@ == old(dst)@ + src@,
{
    let mut i: usize = 0;
    while i < src.len()
        invariant
            i <= src.len(),
            dst@ == old(dst)@ + src@.take(i as int),
        decreases src.len() - i,
    {
        dst.push(src[i]);
        i = i + 1;
        assert(dst@ =~= old(dst)@ + src@.take(i as int));
    }
    assert(src@.take(src.len() as int) =~= src@);
}

pub fn push_str(dst: &mut Vec<char>, s: &str)
    ensures
        final(dst)@ == old(dst)@ + s@,
{
    let v = chars_of(s);
    push_all(dst, &v);
}

/// Builds a `String` from its characters (`Iterator::collect`).
#[verifier::external_body]
pub(crate) fn string_of(v: &Vec<char>) -> (s: String)
    ensures
        s@ == v@,
{
    v.iter().collect()
}

/// `n` spaces.
pub open spec fn spaces(n: nat) -> Seq<char> {
    Seq::new(n, |i: int| ' ')
}

// ---------------------------------------------------------------------------
// Lines
// ---------------------------------------------------------------------------

/// A line without the `'\r'` of a `"\r\n"` ending.
pub open spec fn strip_cr(l: Seq<char>) -> Seq<char> {
    if l.len() > 0 && l.last() == '\r' {
        l.drop_last()
    } else {
        l
    }
}

/// Reading `t` from the left: the lines ended so far, and the line being read.
pub open spec fn scan_lines(t: Seq<char>) -> (Seq<Seq<char>>, Seq<char>)
    decreases t.len(),
{
    if t.len() == 0 {
        (Seq::empty(), Seq::empty())
    } else {
        let (done, cur) = scan_lines(t.drop_last());
        if t.last() == '\n' {
            (done.push(strip_cr(cur)), Seq::empty())
        } else {
            (done, cur.push(t.last()))
        }
    }
}

/// `str::lines`: the text split at `"\n"` and `"\r\n"`, with a final line
/// ending optional (an empty text has no lines).
pub open spec fn lines_of(t: Seq<char>) -> Seq<Seq<char>> {
    let (done, cur) = scan_lines(t);
    if cur.len() > 0 {
        done.push(cur)
    } else {
        done
    }
}

/// The characters of each line.
pub open spec fn lines_view(v: Seq<Vec<char>>) -> Seq<Seq<char>> {
    v.map_values(|l: Vec<char>| l@)
}

/// `lines_of(text)`.
pub fn split_lines(text: &Vec<char>) -> (r: Vec<Vec<char>>)
    ensures
        lines_view(r@) == lines_of(text@),
{
    let mut done: Vec<Vec<char>> = Vec::new();
    let mut cur: Vec<char> = Vec::new();
    let mut i: usize = 0;
    while i < text.len()
        invariant
            i <= text.len(),
            (lines_view(done@), cur@) == scan_lines(text@.take(i as int)),
        decreases text.len() - i,
    {
        let c = text[i];
        proof {
            assert(text@.take(i + 1).drop_last() =~= text@.take(i as int));
        }
        if c == '\n' {
            if cur.len() > 0 && cur[cur.len() - 1] == '\r' {
                cur.pop();
            }
            let ghost prev = done@;
            let line = cur;
            done.push(line);
            cur = Vec::new();
            proof {
                assert(done@ == prev.push(line));
                assert(lines_view(done@) =~= lines_view(prev).push(line@));
            }
        } else {
            cur.push(c);
        }
        i = i + 1;
    }
    assert(text@.take(text.len() as int) =~= text@);
    if cur.len() > 0 {
        let ghost prev = done@;
        let ghost last_line = cur;
        done.push(cur);
        assert(done@ == prev.push(last_line));
        assert(lines_view(done@) =~= lines_view(prev).push(last_line@));
    }
    done
}

/// The line at `idx`, or the empty line past the end (`lines.get(idx).unwrap_or("")`).
pub open spec fn line_or_empty(lines: Seq<Seq<char>>, idx: int) -> Seq<char> {
    if 0 <= idx < lines.len() {
        lines[idx]
    } else {
        Seq::empty()
    }
}

// ---------------------------------------------------------------------------
// UTF-8 byte lengths
// ---------------------------------------------------------------------------

/// `char::len_utf8`.
pub open spec fn char_width(c: char) -> nat {
    if (c as u32) < 0x80 {
        1
    } else if (c as u32) < 0x800 {
        2
    } else if (c as u32) < 0x10000 {
        3
    } else {
        4
    }
}

/// `str::len`: the length of the UTF-8 encoding.
pub open spec fn byte_len(s: Seq<char>) -> nat
    decreases s.len(),
{
    if s.len() == 0 {
        0
    } else {
        byte_len(s.drop_last()) + char_width(s.last())
    }
}

/// A number truncated to 32 bits (`as u32`).
pub open spec fn u32_of(n: int) -> u32 {
    (n % 0x1_0000_0000) as u32
}

pub fn width_of(c: char) -> (w: u32)
    ensures
        w == char_width(c),
        1 <= w <= 4,
{
    if (c as u32) < 0x80 {
        1
    } else if (c as u32) < 0x800 {
        2
    } else if (c as u32) < 0x10000 {
        3
    } else {
        4
    }
}

proof fn lemma_u32_of_step(n: int, w: int)
    requires
        0 <= n,
        0 <= w <= 4,
    ensures
        u32_of(n + w) == (if u32_of(n) + w >= 0x1_0000_0000 {
            u32_of(n) + w - 0x1_0000_0000
        } else {
            u32_of(n) + w
        }),
{
    vstd::arithmetic::div_mod::lemma_add_mod_noop(n, w, 0x1_0000_0000);
    vstd::arithmetic::div_mod::lemma_small_mod(w as nat, 0x1_0000_0000);
    let m = n % 0x1_0000_0000;
    assert(0 <= m < 0x1_0000_0000);
    if m + w >= 0x1_0000_0000 {
        vstd::arithmetic::div_mod::lemma_mod_sub_multiples_vanish(m + w, 0x1_0000_0000);
        vstd::arithmetic::div_mod::lemma_small_mod(
            (m + w - 0x1_0000_0000) as nat,
            0x1_0000_0000,
        );
    } else {
        vstd::arithmetic::div_mod::lemma_small_mod((m + w) as nat, 0x1_0000_0000);
    }
}

/// `(byte_len(s[from..to]) as u32)`.
pub fn byte_len_u32(s: &Vec<char>, from: usize, to: usize) -> (n: u32)
    requires
        from <= to <= s.len(),
    ensures
        n == u32_of(byte_len(s@.subrange(from as int, to as int)) as int),
{
    let mut n: u32 = 0;
    let mut i = from;
    proof {
        assert(s@.subrange(from as int, from as int) =~= Seq::<char>::empty());
        vstd::arithmetic::div_mod::lemma_small_mod(0, 0x1_0000_0000);
    }
    while i < to
        invariant
            from <= i <= to <= s.len(),
            n == u32_of(byte_len(s@.subrange(from as int, i as int)) as int),
        decreases to - i,
    {
        let w = width_of(s[i]);
        proof {
            assert(s@.subrange(from as int, i + 1).drop_last() =~= s@.subrange(
                from as int,
                i as int,
            ));
            lemma_u32_of_step(byte_len(s@.subrange(from as int, i as int)) as int, w as int);
        }
        if n as u64 + w as u64 >= 0x1_0000_0000 {
            n = (n as u64 + w as u64 - 0x1_0000_0000) as u32;
        } else {
            n = n + w;
        }
        i = i + 1;
    }
    n
}

pub proof fn lemma_byte_len_append(a: Seq<char>, b: Seq<char>)
    ensures
        byte_len(a + b) == byte_len(a) + byte_len(b),
    decreases b.len(),
{
    if b.len() == 0 {
        assert(a + b =~= a);
    } else {
        lemma_byte_len_append(a, b.drop_last());
        assert((a + b).drop_last() =~= a + b.drop_last());
    }
}

/// Byte offsets grow with the character index.
pub proof fn lemma_byte_len_take_increasing(s: Seq<char>, i: int, j: int)
    requires
        0 <= i < j <= s.len(),
    ensures
        byte_len(s.take(i)) < byte_len(s.take(j)),
    decreases j - i,
{
    assert(s.take(j).drop_last() =~= s.take(j - 1));
    if i < j - 1 {
        lemma_byte_len_take_increasing(s, i, j - 1);
    }
}

// ---------------------------------------------------------------------------
// The word under the cursor
// ---------------------------------------------------------------------------

/// Where the run of word characters that ends at index `j` begins.
pub open spec fn word_start(s: Seq<char>, j: int) -> int
    decreases j,
{
    if 0 < j <= s.len() && is_word_char(s[j - 1]) {
        word_start(s, j - 1)
    } else {
        j
    }
}

/// Where the run of word characters that begins at index `j` ends.
pub open spec fn word_end(s: Seq<char>, j: int) -> int
    decreases s.len() - j,
{
    if 0 <= j < s.len() && is_word_char(s[j]) {
        word_end(s, j + 1)
    } else {
        j
    }
}

/// Character `j` of `s` begins at byte offset `col`.
pub open spec fn starts_at_byte(s: Seq<char>, col: int, j: int) -> bool {
    0 <= j < s.len() && byte_len(s.take(j)) == col
}

/// The word at byte column `col` of a line: where a character begins at
/// that byte, the longest run of word characters (ASCII letters, digits,
/// `_`) that reaches it from the left or starts at it; `None` where that run
/// is empty, where `col` falls inside a character, or past the end.
pub open spec fn word_at(s: Seq<char>, col: int) -> Option<Seq<char>> {
    if exists|j: int| starts_at_byte(s, col, j) {
        let j = choose|j: int| starts_at_byte(s, col, j);
        let a = word_start(s, j);
        let b = word_end(s, j);
        if a < b {
            Some(s.subrange(a, b))
        } else {
            None
        }
    } else {
        None
    }
}

proof fn lemma_word_start_bounds(s: Seq<char>, j: int)
    requires
        0 <= j <= s.len(),
    ensures
        0 <= word_start(s, j) <= j,
    decreases j,
{
    if 0 < j && is_word_char(s[j - 1]) {
        lemma_word_start_bounds(s, j - 1);
    }
}

proof fn lemma_word_end_bounds(s: Seq<char>, j: int)
    requires
        0 <= j <= s.len(),
    ensures
        j <= word_end(s, j) <= s.len(),
    decreases s.len() - j,
{
    if j < s.len() && is_word_char(s[j]) {
        lemma_word_end_bounds(s, j + 1);
    }
}

/// `word_at(line, col)`: the word under the cursor.
pub fn extract_word(line: &Vec<char>, col: u32) -> (r: Option<Vec<char>>)
    ensures
        r matches Some(w) ==> word_at(line@, col as int) == Some(w@),
        r is None ==> word_at(line@, col as int) is None,
{
    let ghost s = line@;
    let mut j: usize = 0;
    let mut off: u64 = 0;
    proof {
        assert(s.take(0) =~= Seq::<char>::empty());
    }
    while j < line.len() && off < col as u64
        invariant
            s == line@,
            j <= line.len(),
            off == byte_len(s.take(j as int)),
            off < col as u64 + 4,
            forall|k: int| 0 <= k < j ==> byte_len(#[trigger] s.take(k)) < col,
        decreases line.len() - j,
    {
        let w = width_of(line[j]);
        proof {
            assert(s.take(j + 1).drop_last() =~= s.take(j as int));
        }
        off = off + w as u64;
        j = j + 1;
    }
    if j < line.len() && off == col as u64 {
        proof {
            assert(starts_at_byte(s, col as int, j as int));
            let c = choose|k: int| starts_at_byte(s, col as int, k);
            if c < j {
                lemma_byte_len_take_increasing(s, c, j as int);
            } else if c > j {
                lemma_byte_len_take_increasing(s, j as int, c);
            }
            assert(c == j);
        }
        let mut a = j;
        while a > 0 && is_word(line[a - 1])
            invariant
                s == line@,
                a <= j < line.len(),
                word_start(s, a as int) == word_start(s, j as int),
            decreases a,
        {
            a = a - 1;
        }
        let mut b = j;
        while b < line.len() && is_word(line[b])
            invariant
                s == line@,
                j <= b <= line.len(),
                word_end(s, b as int) == word_end(s, j as int),
            decreases line.len() - b,
        {
            b = b + 1;
        }
        if a < b {
            Some(slice_chars(line, a, b))
        } else {
            None
        }
    } else {
        proof {
            assert forall|k: int| !starts_at_byte(s, col as int, k) by {
                if 0 <= k < s.len() {
                    if k < j {
                    } else if k > j {
                        lemma_byte_len_take_increasing(s, j as int, k);
                    }
                }
            }
        }
        None
    }
}

// ---------------------------------------------------------------------------
// Facts about lines and trimming
// ---------------------------------------------------------------------------

/// No character of `s` is a line feed.
pub open spec fn no_newline(s: Seq<char>) -> bool {
    forall|k: int| 0 <= k < s.len() ==> #[trigger] s[k] != '\n'
}

/// Reading more characters, none a line feed, only extends the line being read.
pub proof fn lemma_scan_append_line(x: Seq<char>, b: Seq<char>)
    requires
        no_newline(b),
    ensures
        scan_lines(x + b) == (scan_lines(x).0, scan_lines(x).1 + b),
    decreases b.len(),
{
    if b.len() == 0 {
        assert(x + b =~= x);
        assert(scan_lines(x).1 + b =~= scan_lines(x).1);
    } else {
        lemma_scan_append_line(x, b.drop_last());
        assert((x + b).drop_last() =~= x + b.drop_last());
        assert((x + b).last() == b.last());
        assert(b.last() == b[b.len() - 1]);
        assert(scan_lines(x).1 + b.drop_last() + seq![b.last()] =~= scan_lines(x).1 + b);
        assert((scan_lines(x).1 + b.drop_last()).push(b.last()) =~= scan_lines(x).1 + b);
    }
}

/// The lines of a text hold no line feed.
pub proof fn lemma_scan_no_newline(t: Seq<char>)
    ensures
        no_newline(scan_lines(t).1),
        forall|i: int| 0 <= i < scan_lines(t).0.len() ==> no_newline(#[trigger] scan_lines(t).0[i]),
    decreases t.len(),
{
    if t.len() > 0 {
        lemma_scan_no_newline(t.drop_last());
        let (done, cur) = scan_lines(t.drop_last());
        if t.last() == '\n' {
            let d2 = done.push(strip_cr(cur));
            assert forall|i: int| 0 <= i < d2.len() implies no_newline(#[trigger] d2[i]) by {
                if i < done.len() {
                    assert(d2[i] == done[i]);
                } else {
                    assert(d2[i] == strip_cr(cur));
                    assert forall|k: int| 0 <= k < strip_cr(cur).len() implies #[trigger] strip_cr(cur)[k] != '\n' by {
                        assert(strip_cr(cur)[k] == cur[k]);
                    }
                }
            }
        } else {
            let c2 = cur.push(t.last());
            assert forall|k: int| 0 <= k < c2.len() implies #[trigger] c2[k] != '\n' by {
                if k < cur.len() {
                    assert(c2[k] == cur[k]);
                }
            }
        }
    }
}

pub proof fn lemma_lines_no_newline(t: Seq<char>)
    ensures
        forall|i: int| 0 <= i < lines_of(t).len() ==> no_newline(#[trigger] lines_of(t)[i]),
{
    lemma_scan_no_newline(t);
    let (done, cur) = scan_lines(t);
    assert forall|i: int| 0 <= i < lines_of(t).len() implies no_newline(#[trigger] lines_of(t)[i]) by {
        if cur.len() > 0 {
            if i < done.len() {
                assert(lines_of(t)[i] == done[i]);
            } else {
                assert(lines_of(t)[i] == cur);
            }
        } else {
            assert(lines_of(t)[i] == done[i]);
        }
    }
}

/// `trim_start` drops a prefix: it is a suffix of its argument.
pub proof fn lemma_trim_start_suffix(s: Seq<char>)
    ensures
        trim_start(s).len() <= s.len(),
        trim_start(s) == s.skip(s.len() - trim_start(s).len()),
        trim_start(s).len() > 0 ==> !is_ws(trim_start(s)[0]),
    decreases s.len(),
{
    if s.len() > 0 && is_ws(s[0]) {
        lemma_trim_start_suffix(s.drop_first());
        let r = trim_start(s.drop_first());
        assert(s.drop_first().skip(s.drop_first().len() - r.len()) =~= s.skip(s.len() - r.len()));
    } else {
        assert(s.skip(0) =~= s);
    }
}

/// `trim_end` drops a suffix: it is a prefix of its argument.
pub proof fn lemma_trim_end_prefix(s: Seq<char>)
    ensures
        trim_end(s).len() <= s.len(),
        trim_end(s) == s.take(trim_end(s).len() as int),
        trim_end(s).len() > 0 ==> !is_ws(trim_end(s).last()),
    decreases s.len(),
{
    if s.len() > 0 && is_ws(s.last()) {
        lemma_trim_end_prefix(s.drop_last());
        let r = trim_end(s.drop_last());
        assert(s.drop_last().take(r.len() as int) =~= s.take(r.len() as int));
    } else {
        assert(s.take(s.len() as int) =~= s);
    }
}

/// A trimmed text starts and ends with a character that is not whitespace.
pub proof fn lemma_trim_ends(s: Seq<char>)
    ensures
        trim(s).len() > 0 ==> !is_ws(trim(s)[0]) && !is_ws(trim(s).last()),
        trim(s).len() <= s.len(),
        no_newline(s) ==> no_newline(trim(s)),
{
    lemma_trim_start_suffix(s);
    let u = trim_start(s);
    lemma_trim_end_prefix(u);
    let t = trim_end(u);
    if t.len() > 0 {
        assert(t[0] == u[0]);
    }
    let a = s.len() - u.len();
    assert(t =~= s.subrange(a, a + t.len()));
    if no_newline(s) {
        assert forall|k: int| 0 <= k < t.len() implies #[trigger] t[k] != '\n' by {
            assert(t[k] == s[a + k]);
        }
    }
}

/// A text without whitespace at its ends is its own `trim_start` and `trim_end`.
pub proof fn lemma_trim_of_trimmed(t: Seq<char>)
    requires
        t.len() > 0 ==> !is_ws(t[0]) && !is_ws(t.last()),
    ensures
        trim(t) == t,
{
}

/// Whitespace before a text does not change its trim.
pub proof fn lemma_trim_start_leading_ws(w: Seq<char>, t: Seq<char>)
    requires
        forall|k: int| 0 <= k < w.len() ==> is_ws(#[trigger] w[k]),
    ensures
        trim_start(w + t) == trim_start(t),
    decreases w.len(),
{
    if w.len() > 0 {
        assert((w + t)[0] == w[0]);
        assert((w + t).drop_first() =~= w.drop_first() + t);
        lemma_trim_start_leading_ws(w.drop_first(), t);
    } else {
        assert(w + t =~= t);
    }
}

/// `trim_start` of a text with one more character.
pub proof fn lemma_trim_start_push(s: Seq<char>, c: char)
    ensures
        trim_start(s.push(c)) == (if trim_start(s).len() > 0 {
            trim_start(s).push(c)
        } else if is_ws(c) {
            Seq::<char>::empty()
        } else {
            seq![c]
        }),
    decreases s.len(),
{
    if s.len() == 0 {
        assert(s.push(c) =~= seq![c]);
        assert(trim_start(s) == s);
        if is_ws(c) {
            assert(seq![c].drop_first() =~= Seq::<char>::empty());
            assert(trim_start(Seq::<char>::empty()) == Seq::<char>::empty());
            assert(trim_start(seq![c]) == trim_start(seq![c].drop_first()));
        }
    } else {
        assert(s.push(c)[0] == s[0]);
        if is_ws(s[0]) {
            assert(s.push(c).drop_first() =~= s.drop_first().push(c));
            lemma_trim_start_push(s.drop_first(), c);
        }
    }
}

/// Dropping the `'\r'` of a `"\r\n"` ending does not change the trimmed text.
pub proof fn lemma_trim_strip_cr(b: Seq<char>)
    ensures
        trim(strip_cr(b)) == trim(b),
{
    if b.len() > 0 && b.last() == '\r' {
        let b0 = b.drop_last();
        assert(b =~= b0.push('\r'));
        lemma_trim_start_push(b0, '\r');
        if trim_start(b0).len() > 0 {
            assert(trim_start(b).drop_last() =~= trim_start(b0));
        }
    }
}

proof fn lemma_word_start_chars(s: Seq<char>, j: int)
    requires
        0 <= j <= s.len(),
    ensures
        forall|k: int| word_start(s, j) <= k < j ==> is_word_char(#[trigger] s[k]),
        word_start(s, j) > 0 ==> !is_word_char(s[word_start(s, j) - 1]),
    decreases j,
{
    lemma_word_start_bounds(s, j);
    if 0 < j && is_word_char(s[j - 1]) {
        lemma_word_start_chars(s, j - 1);
    }
}

proof fn lemma_word_end_chars(s: Seq<char>, j: int)
    requires
        0 <= j <= s.len(),
    ensures
        forall|k: int| j <= k < word_end(s, j) ==> is_word_char(#[trigger] s[k]),
        word_end(s, j) < s.len() ==> !is_word_char(s[word_end(s, j)]),
    decreases s.len() - j,
{
    lemma_word_end_bounds(s, j);
    if j < s.len() && is_word_char(s[j]) {
        lemma_word_end_chars(s, j + 1);
    }
}

/// The word under the cursor is an identifier that cannot be extended: it is
/// not empty, it consists of word characters, and the characters around it
/// in the line are not word characters.
pub proof fn law_word_is_whole_identifier(s: Seq<char>, col: int)
    ensures
        word_at(s, col) matches Some(w) ==> {
            &&& w.len() > 0
            &&& forall|k: int| 0 <= k < w.len() ==> is_word_char(#[trigger] w[k])
            &&& exists|a: int|
                #![trigger s.subrange(a, a + w.len())]
                0 <= a && a + w.len() <= s.len() && s.subrange(a, a + w.len()) == w && (a > 0
                    ==> !is_word_char(s[a - 1])) && (a + w.len() < s.len() ==> !is_word_char(
                    s[a + w.len()],
                ))
        },
{
    if exists|j: int| starts_at_byte(s, col, j) {
        let j = choose|j: int| starts_at_byte(s, col, j);
        lemma_word_start_chars(s, j);
        lemma_word_end_chars(s, j);
        lemma_word_start_bounds(s, j);
        lemma_word_end_bounds(s, j);
        let a = word_start(s, j);
        let b = word_end(s, j);
        if a < b {
            let w = s.subrange(a, b);
            assert forall|k: int| 0 <= k < w.len() implies is_word_char(#[trigger] w[k]) by {
                assert(w[k] == s[a + k]);
            }
            assert(w.len() == b - a);
            assert(s.subrange(a, a + w.len()) == w);
            assert(a > 0 ==> !is_word_char(s[a - 1]));
            assert(a + w.len() < s.len() ==> !is_word_char(s[a + w.len()]));
            assert(word_at(s, col) == Some(w));
            assert(0 <= a && a + w.len() <= s.len() && s.subrange(a, a + w.len()) == w && (a > 0
                ==> !is_word_char(s[a - 1])) && (a + w.len() < s.len() ==> !is_word_char(
                s[a + w.len()],
            )));
        }
    }
}

/// `byte_len` is the length of the UTF-8 encoding (`str::len`).
pub proof fn lemma_byte_len_is_utf8_len(s: Seq<char>)
    ensures
        byte_len(s) == vstd::utf8::encode_utf8(s).len(),
    decreases s.len(),
{
    if s.len() > 0 {
        let c = s[0];
        vstd::utf8::char_is_scalar(c);
        lemma_byte_len_is_utf8_len(s.drop_first());
        lemma_byte_len_append(seq![c], s.drop_first());
        assert(seq![c] + s.drop_first() =~= s);
        assert(seq![c].drop_last() =~= Seq::<char>::empty());
        assert(byte_len(Seq::<char>::empty()) == 0);
        assert(seq![c].last() == c);
        assert(byte_len(seq![c]) == char_width(c));
        assert(vstd::utf8::encode_utf8(s) == vstd::utf8::encode_scalar(c as u32)
            + vstd::utf8::encode_utf8(s.drop_first()));
    }
}

} // verus!
