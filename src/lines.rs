//! Classification of archive lines: blank, tag pair, or movetext.

use vstd::prelude::*;
use crate::movetext::{CharClass, run_end, run_end_in};
use crate::text::{is_ws, is_ws_char, chars_of, string_of};

verus! {

/// The start of the run of whitespace that ends at `j`.
pub open spec fn ws_start_before(s: Seq<char>, j: int) -> int
    decreases j,
{
    if 0 < j <= s.len() && is_ws(s[j - 1]) {
        ws_start_before(s, j - 1)
    } else {
        j
    }
}

/// `s` without its leading and trailing whitespace.
pub open spec fn trim(s: Seq<char>) -> Seq<char> {
    let a = run_end(s, 0, CharClass::Space);
    if a >= s.len() {
        seq![]
    } else {
        s.subrange(a, ws_start_before(s, s.len() as int))
    }
}

/// The name and value of a tag-pair line `[Name "Value"]`: `[`, one or more
/// name characters, whitespace, `"`, a value without `"`, `"`, `]`, and nothing
/// else.
pub open spec fn tag_of(t: Seq<char>) -> Option<(Seq<char>, Seq<char>)> {
    let k = run_end(t, 1, CharClass::NameChar);
    let j = run_end(t, k, CharClass::Space);
    let q = run_end(t, j + 1, CharClass::NonQuote);
    if t.len() >= 2 && t[0] == '[' && k > 1 && j > k && j < t.len() && t[j] == '"' && q + 2
        == t.len() && t[q] == '"' && t[q + 1] == ']' {
        Some((t.subrange(1, k), t.subrange(j + 1, q)))
    } else {
        None
    }
}

/// What a line is, after trimming.
pub enum LineKind {
    Blank,
    /// A tag pair: its name, its value and the trimmed line.
    Tag(String, String, String),
    /// Anything else: the trimmed line.
    Text(String),
}

fn ws_start_before_in(s: &[char], j: usize) -> (r: usize)
    requires
        j <= s@.len(),
    ensures
        r == ws_start_before(s@, j as int),
        r <= j,
{
    let mut i = j;
    while i > 0 && is_ws_char(s[i - 1])
        invariant
            i <= j <= s@.len(),
            ws_start_before(s@, i as int) == ws_start_before(s@, j as int),
        decreases i,
    {
        i -= 1;
    }
    i
}

/// Trims `line` and tells what it is.
pub fn classify(line: &str) -> (r: LineKind)
    ensures
        match r {
            LineKind::Blank => trim(line@).len() == 0,
            LineKind::Tag(k, v, t) => trim(line@).len() > 0 && t@ == trim(line@) && tag_of(t@)
                == Some((k@, v@)),
            LineKind::Text(t) => trim(line@).len() > 0 && t@ == trim(line@) && tag_of(t@) is None,
        },
{
    let s = chars_of(line);
    let a = run_end_in(s.as_slice(), 0, CharClass::Space);
    if a >= s.len() {
        return LineKind::Blank;
    }
    let b = ws_start_before_in(s.as_slice(), s.len());
    if b <= a {
        assert(false) by {
            crate::movetext::lemma_run_end(s@, 0, CharClass::Space);
            lemma_ws_start_before_stops(s@, s@.len() as int, a as int);
        }
        return LineKind::Blank;
    }
    let t = string_of(s.as_slice(), a, b);
    let tc = string_chars(s.as_slice(), a, b);
    match tag_in(tc.as_slice()) {
        Some((k, j, q)) => {
            let key = string_of(tc.as_slice(), 1, k);
            let value = string_of(tc.as_slice(), j + 1, q);
            LineKind::Tag(key, value, t)
        },
        None => LineKind::Text(t),
    }
}

proof fn lemma_ws_start_before_stops(s: Seq<char>, j: int, a: int)
    requires
        0 <= a < j <= s.len(),
        !is_ws(s[a]),
    ensures
        ws_start_before(s, j) > a,
    decreases j,
{
    if j - 1 > a && is_ws(s[j - 1]) {
        lemma_ws_start_before_stops(s, j - 1, a);
    }
}

fn string_chars(s: &[char], from: usize, to: usize) -> (r: Vec<char>)
    requires
        from <= to <= s@.len(),
    ensures
        r@ == s@.subrange(from as int, to as int),
{
    let mut r: Vec<char> = Vec::new();
    let mut i = from;
    while i < to
        invariant
            from <= i <= to <= s@.len(),
            r@ == s@.subrange(from as int, i as int),
        decreases to - i,
    {
        r.push(s[i]);
        assert(s@.subrange(from as int, i + 1) =~= s@.subrange(from as int, i as int).push(s@[i as int]));
        i += 1;
    }
    r
}

/// The cut points of the tag pair `t`: the end of the name, the opening quote
/// and the closing quote.
fn tag_in(t: &[char]) -> (r: Option<(usize, usize, usize)>)
    ensures
        match tag_of(t@) {
            None => r is None,
            Some((k, v)) => r matches Some((ke, j, q)) && 1 <= ke <= j && j + 1 <= q <= t@.len() && k
                == t@.subrange(1, ke as int) && v == t@.subrange(j + 1, q as int),
        },
{
    if t.len() < 2 || t[0] != '[' {
        return None;
    }
    let k = run_end_in(t, 1, CharClass::NameChar);
    let j = run_end_in(t, k, CharClass::Space);
    if !(k > 1 && j > k && j < t.len() && t[j] == '"') {
        return None;
    }
    let q = run_end_in(t, j + 1, CharClass::NonQuote);
    if q < t.len() && t.len() - q == 2 && t[q] == '"' && t[q + 1] == ']' {
        Some((k, j, q))
    } else {
        None
    }
}

} // verus!
