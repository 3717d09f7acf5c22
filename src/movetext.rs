//! The movetext grammar: numbered items of one or two move tokens, each with an
//! optional annotation mark and brace comment, closed by a result sentinel.

use vstd::prelude::*;
use crate::san::{is_move_token, lemma_is_san_decodes, san_cuts_in, castle_in};
use crate::text::{is_ws, is_ws_char, chars_of, string_of};

verus! {

/// Classes of characters that the scanner skips over in runs.
#[derive(Clone, Copy, PartialEq, Eq)]
pub enum CharClass {
    /// Whitespace.
    Space,
    /// Anything that may stand in a token: neither whitespace nor `{`.
    Token,
    /// The inside of a brace comment: neither `{` nor `}`.
    CommentText,
    /// An ASCII digit.
    Digit,
    /// A full stop.
    Dot,
    /// A character of a tag name: an ASCII letter or digit, or `_`.
    NameChar,
    /// Anything but a double quote.
    NonQuote,
    /// Anything but a full stop.
    NonDot,
}

pub open spec fn in_class(k: CharClass, c: char) -> bool {
    match k {
        CharClass::Space => is_ws(c),
        CharClass::Token => !is_ws(c) && c != '{',
        CharClass::CommentText => c != '{' && c != '}',
        CharClass::Digit => '0' <= c && c <= '9',
        CharClass::Dot => c == '.',
        CharClass::NameChar => ('a' <= c && c <= 'z') || ('A' <= c && c <= 'Z') || ('0' <= c && c
            <= '9') || c == '_',
        CharClass::NonQuote => c != '"',
        CharClass::NonDot => c != '.',
    }
}

fn in_class_exec(k: CharClass, c: char) -> (r: bool)
    ensures
        r == in_class(k, c),
{
    match k {
        CharClass::Space => is_ws_char(c),
        CharClass::Token => !is_ws_char(c) && c != '{',
        CharClass::CommentText => c != '{' && c != '}',
        CharClass::Digit => '0' <= c && c <= '9',
        CharClass::Dot => c == '.',
        CharClass::NameChar => ('a' <= c && c <= 'z') || ('A' <= c && c <= 'Z') || ('0' <= c && c
            <= '9') || c == '_',
        CharClass::NonQuote => c != '"',
        CharClass::NonDot => c != '.',
    }
}

/// The end of the run of class-`k` characters of `s` that starts at `i`.
pub open spec fn run_end(s: Seq<char>, i: int, k: CharClass) -> int
    decreases s.len() - i,
{
    if 0 <= i < s.len() && in_class(k, s[i]) {
        run_end(s, i + 1, k)
    } else {
        i
    }
}

pub proof fn lemma_run_end(s: Seq<char>, i: int, k: CharClass)
    requires
        0 <= i <= s.len(),
    ensures
        i <= run_end(s, i, k) <= s.len(),
        forall|j: int| i <= j < run_end(s, i, k) ==> in_class(k, #[trigger] s[j]),
        run_end(s, i, k) < s.len() ==> !in_class(k, s[run_end(s, i, k)]),
    decreases s.len() - i,
{
    if i < s.len() && in_class(k, s[i]) {
        lemma_run_end(s, i + 1, k);
    }
}

/// The end of the run of class-`k` characters of `s` that starts at `i`.
pub fn run_end_in(s: &[char], i: usize, k: CharClass) -> (r: usize)
    requires
        i <= s@.len(),
    ensures
        r == run_end(s@, i as int, k),
        i <= r <= s@.len(),
{
    let mut j = i;
    while j < s.len() && in_class_exec(k, s[j])
        invariant
            i <= j <= s@.len(),
            run_end(s@, j as int, k) == run_end(s@, i as int, k),
        decreases s@.len() - j,
    {
        j += 1;
    }
    j
}

/// One of the four result sentinels `1-0`, `0-1`, `1/2-1/2`, `*`.
pub open spec fn is_result(w: Seq<char>) -> bool {
    ||| w == seq!['1', '-', '0']
    ||| w == seq!['0', '-', '1']
    ||| w == seq!['1', '/', '2', '-', '1', '/', '2']
    ||| w == seq!['*']
}

/// Length of the trailing annotation mark (`!`, `?`, `!!`, `!?`, `?!`, `??`) of `w`.
pub open spec fn marks_len(w: Seq<char>) -> int {
    if w.len() >= 1 && is_mark(w.last()) {
        if w.len() >= 2 && is_mark(w[w.len() - 2]) { 2 } else { 1 }
    } else {
        0
    }
}

pub open spec fn is_mark(c: char) -> bool {
    c == '!' || c == '?'
}

/// The move at `i`: a token whose text, without its annotation mark, is a move
/// token, then optionally a brace comment (after optional whitespace).
/// Gives the move token and the position after the move.
pub open spec fn move_at(s: Seq<char>, i: int) -> Option<(Seq<char>, int)> {
    let e = run_end(s, i, CharClass::Token);
    let w = s.subrange(i, e);
    let core = w.take(w.len() - marks_len(w));
    if !is_move_token(core) {
        None
    } else {
        let c = run_end(s, e, CharClass::Space);
        if c < s.len() && s[c] == '{' {
            let k = run_end(s, c + 1, CharClass::CommentText);
            if k < s.len() && s[k] == '}' && k > c + 1 {
                Some((core, k + 1))
            } else {
                None
            }
        } else {
            Some((core, e))
        }
    }
}

/// The item at `i`: a move-index marker (digits, then full stops, then
/// whitespace) and one or two moves separated by whitespace.
/// Gives the marker's digits, the move tokens and the position after the item.
pub open spec fn item_at(s: Seq<char>, i: int) -> Option<(Seq<char>, Seq<Seq<char>>, int)> {
    let d = run_end(s, i, CharClass::Digit);
    let e = run_end(s, d, CharClass::Dot);
    if d == i || e == d || e >= s.len() || !is_ws(s[e]) {
        None
    } else {
        let j = run_end(s, e, CharClass::Space);
        match move_at(s, j) {
            None => None,
            Some((m1, p1)) => {
                let j2 = run_end(s, p1, CharClass::Space);
                if j2 > p1 {
                    match move_at(s, j2) {
                        Some((m2, p2)) => Some((s.subrange(i, d), seq![m1, m2], p2)),
                        None => Some((s.subrange(i, d), seq![m1], p1)),
                    }
                } else {
                    Some((s.subrange(i, d), seq![m1], p1))
                }
            },
        }
    }
}

/// What the grammar reads from a movetext: the move tokens in document order,
/// the digits of each move-index marker in document order, and the result.
pub struct MoveList {
    pub moves: Seq<Seq<char>>,
    pub markers: Seq<Seq<char>>,
    pub result: Seq<char>,
}

/// Reads items from `i` on, after the moves and markers already read, up to a
/// result sentinel that only whitespace follows.
pub open spec fn items_from(
    s: Seq<char>,
    i: int,
    moves: Seq<Seq<char>>,
    markers: Seq<Seq<char>>,
) -> Option<MoveList>
    decreases s.len() - i,
{
    if i < 0 || i >= s.len() {
        None
    } else {
        match item_at(s, i) {
            None => None,
            Some((mk, ms, p)) => {
                let moves2 = moves + ms;
                let markers2 = markers.push(mk);
                let q = run_end(s, p, CharClass::Space);
                let e = run_end(s, q, CharClass::Token);
                if q == p {
                    None
                } else if is_result(s.subrange(q, e)) {
                    if run_end(s, e, CharClass::Space) == s.len() {
                        Some(MoveList { moves: moves2, markers: markers2, result: s.subrange(q, e) })
                    } else {
                        None
                    }
                } else if i < q <= s.len() {
                    items_from(s, q, moves2, markers2)
                } else {
                    None
                }
            },
        }
    }
}

/// The whole movetext `s`: optional whitespace, one or more items separated by
/// whitespace, whitespace, a result sentinel, optional whitespace.
pub open spec fn parse_movetext(s: Seq<char>) -> Option<MoveList> {
    items_from(s, run_end(s, 0, CharClass::Space), seq![], seq![])
}

/// The number of distinct entries of `ks`.
pub open spec fn distinct_count(ks: Seq<Seq<char>>) -> nat
    decreases ks.len(),
{
    if ks.len() == 0 {
        0
    } else {
        distinct_count(ks.drop_last()) + if ks.drop_last().contains(ks.last()) { 0nat } else { 1nat }
    }
}

/// The recursive count agrees with the size of the set of entries.
pub proof fn lemma_distinct_count_is_set_len(ks: Seq<Seq<char>>)
    ensures
        distinct_count(ks) == ks.to_set().len(),
    decreases ks.len(),
{
    if ks.len() == 0 {
        assert(ks.to_set() =~= Set::<Seq<char>>::empty());
    } else {
        let d = ks.drop_last();
        let x = ks.last();
        lemma_distinct_count_is_set_len(d);
        assert(ks =~= d.push(x));
        d.lemma_push_to_set_commute(x);
        vstd::seq_lib::seq_to_set_is_finite(d);
        if d.contains(x) {
            assert(d.to_set().contains(x));
            assert(d.to_set().insert(x) =~= d.to_set());
        } else {
            assert(!d.to_set().contains(x));
        }
    }
}

/// The views of a sequence of strings.
pub open spec fn views(v: Seq<String>) -> Seq<Seq<char>> {
    v.map_values(|m: String| m@)
}

pub(crate) fn result_in(s: &[char], from: usize, to: usize) -> (r: bool)
    requires
        from <= to <= s@.len(),
    ensures
        r == is_result(s@.subrange(from as int, to as int)),
{
    let ghost w = s@.subrange(from as int, to as int);
    let n = to - from;
    assert(w.len() == n);
    assert(seq!['*'].len() == 1 && seq!['1', '-', '0'].len() == 3 && seq!['0', '-', '1'].len() == 3);
    assert(seq!['1', '/', '2', '-', '1', '/', '2'].len() == 7);
    if n == 1 {
        let r = s[from] == '*';
        assert(r ==> w =~= seq!['*']);
        assert(w == seq!['*'] ==> w[0] == '*');
        r
    } else if n == 3 {
        let a = s[from];
        let b = s[from + 1];
        let c = s[from + 2];
        let r = (a == '1' && b == '-' && c == '0') || (a == '0' && b == '-' && c == '1');
        assert(a == '1' && b == '-' && c == '0' ==> w =~= seq!['1', '-', '0']);
        assert(a == '0' && b == '-' && c == '1' ==> w =~= seq!['0', '-', '1']);
        assert(w == seq!['1', '-', '0'] ==> w[0] == '1' && w[1] == '-' && w[2] == '0');
        assert(w == seq!['0', '-', '1'] ==> w[0] == '0' && w[1] == '-' && w[2] == '1');
        r
    } else if n == 7 {
        let r = s[from] == '1' && s[from + 1] == '/' && s[from + 2] == '2' && s[from + 3] == '-'
            && s[from + 4] == '1' && s[from + 5] == '/' && s[from + 6] == '2';
        assert(r ==> w =~= seq!['1', '/', '2', '-', '1', '/', '2']);
        assert(w == seq!['1', '/', '2', '-', '1', '/', '2'] ==> w[0] == '1' && w[1] == '/'
            && w[2] == '2' && w[3] == '-' && w[4] == '1' && w[5] == '/' && w[6] == '2');
        r
    } else {
        false
    }
}

fn is_mark_char(c: char) -> (r: bool)
    ensures
        r == is_mark(c),
{
    c == '!' || c == '?'
}

/// The move at `i`: the end of its move token and the position after it.
fn move_in(s: &[char], i: usize) -> (r: Option<(usize, usize)>)
    requires
        i <= s@.len(),
    ensures
        match move_at(s@, i as int) {
            None => r is None,
            Some((core, p)) => r matches Some((ce, pe)) && i <= ce <= pe <= s@.len() && core
                == s@.subrange(i as int, ce as int) && p == pe,
        },
{
    let e = run_end_in(s, i, CharClass::Token);
    let ghost w = s@.subrange(i as int, e as int);
    let n = e - i;
    let m: usize = if n >= 1 && is_mark_char(s[e - 1]) {
        if n >= 2 && is_mark_char(s[e - 2]) { 2 } else { 1 }
    } else {
        0
    };
    assert(m == marks_len(w));
    let ce = e - m;
    assert(w.take(w.len() - marks_len(w)) =~= s@.subrange(i as int, ce as int));
    proof {
        lemma_is_san_decodes(s@.subrange(i as int, ce as int));
    }
    let is_move = match san_cuts_in(s, i, ce) {
        Some(_) => true,
        None => castle_in(s, i, ce),
    };
    if !is_move {
        return None;
    }
    let c = run_end_in(s, e, CharClass::Space);
    if c < s.len() && s[c] == '{' {
        let k = run_end_in(s, c + 1, CharClass::CommentText);
        if k < s.len() && s[k] == '}' && k > c + 1 {
            Some((ce, k + 1))
        } else {
            None
        }
    } else {
        Some((ce, e))
    }
}

/// Where the parts of an item lie in the text.
struct ItemCuts {
    marker_end: usize,
    first: (usize, usize),
    second: Option<(usize, usize)>,
    end: usize,
}

spec fn item_matches(s: Seq<char>, i: int, c: ItemCuts, mk: Seq<char>, ms: Seq<Seq<char>>, p: int) -> bool {
    &&& i <= c.marker_end <= c.first.0 <= c.first.1 <= c.end <= s.len()
    &&& mk == s.subrange(i, c.marker_end as int)
    &&& p == c.end
    &&& match c.second {
        None => ms == seq![s.subrange(c.first.0 as int, c.first.1 as int)],
        Some((a, b)) => c.first.1 <= a <= b <= c.end && ms == seq![
            s.subrange(c.first.0 as int, c.first.1 as int),
            s.subrange(a as int, b as int),
        ],
    }
}

fn item_in(s: &[char], i: usize) -> (r: Option<ItemCuts>)
    requires
        i <= s@.len(),
    ensures
        match item_at(s@, i as int) {
            None => r is None,
            Some((mk, ms, p)) => r matches Some(c) && item_matches(s@, i as int, c, mk, ms, p),
        },
{
    let d = run_end_in(s, i, CharClass::Digit);
    let e = run_end_in(s, d, CharClass::Dot);
    if d == i || e == d || e >= s.len() || !is_ws_char(s[e]) {
        return None;
    }
    let j = run_end_in(s, e, CharClass::Space);
    match move_in(s, j) {
        None => None,
        Some((ce1, p1)) => {
            let j2 = run_end_in(s, p1, CharClass::Space);
            if j2 > p1 {
                match move_in(s, j2) {
                    Some((ce2, p2)) => Some(
                        ItemCuts { marker_end: d, first: (j, ce1), second: Some((j2, ce2)), end: p2 },
                    ),
                    None => Some(ItemCuts { marker_end: d, first: (j, ce1), second: None, end: p1 }),
                }
            } else {
                Some(ItemCuts { marker_end: d, first: (j, ce1), second: None, end: p1 })
            }
        },
    }
}

/// Reads a movetext block: its move tokens, its move-index markers and its result.
pub fn parse_moves(s: &[char]) -> (r: Option<(Vec<String>, Vec<String>, String)>)
    ensures
        match parse_movetext(s@) {
            None => r is None,
            Some(l) => r matches Some((ms, mks, res)) && views(ms@) == l.moves && views(mks@)
                == l.markers && res@ == l.result,
        },
{
    let mut moves: Vec<String> = Vec::new();
    let mut markers: Vec<String> = Vec::new();
    let mut i = run_end_in(s, 0, CharClass::Space);
    assert(views(moves@) =~= seq![]);
    assert(views(markers@) =~= seq![]);
    loop
        invariant
            i <= s@.len(),
            items_from(s@, i as int, views(moves@), views(markers@)) == parse_movetext(s@),
        decreases s@.len() - i,
    {
        if i >= s.len() {
            return None;
        }
        let c = match item_in(s, i) {
            None => {
                return None;
            },
            Some(c) => c,
        };
        let ghost mv0 = views(moves@);
        let ghost mk0 = views(markers@);
        markers.push(string_of(s, i, c.marker_end));
        moves.push(string_of(s, c.first.0, c.first.1));
        match c.second {
            Some((a, b)) => {
                moves.push(string_of(s, a, b));
            },
            None => {},
        }
        let ghost it = item_at(s@, i as int)->0;
        assert(views(moves@) =~= mv0 + it.1);
        assert(views(markers@) =~= mk0.push(it.0));
        let p = c.end;
        let q = run_end_in(s, p, CharClass::Space);
        let e = run_end_in(s, q, CharClass::Token);
        if q == p {
            return None;
        }
        if result_in(s, q, e) {
            if run_end_in(s, e, CharClass::Space) == s.len() {
                return Some((moves, markers, string_of(s, q, e)));
            } else {
                return None;
            }
        }
        if q <= i {
            return None;
        }
        i = q;
    }
}

/// The number of distinct strings in `ks`.
pub fn count_distinct(ks: &Vec<String>) -> (r: usize)
    ensures
        r == distinct_count(views(ks@)),
{
    let ghost v = views(ks@);
    let mut n: usize = 0;
    let mut i: usize = 0;
    assert(v.take(0) =~= seq![]);
    while i < ks.len()
        invariant
            i <= ks@.len(),
            v == views(ks@),
            n == distinct_count(v.take(i as int)),
            n <= i,
        decreases ks@.len() - i,
    {
        let mut found = false;
        let mut j: usize = 0;
        while j < i
            invariant
                j <= i < ks@.len(),
                found == exists|k: int| 0 <= k < j && ks@[k]@ == ks@[i as int]@,
            decreases i - j,
        {
            if ks[j] == ks[i] {
                found = true;
            }
            j += 1;
        }
        let ghost pre = v.take(i as int);
        assert(v.take(i + 1).drop_last() =~= pre);
        assert(v.take(i + 1).last() == ks@[i as int]@);
        assert(found == pre.contains(ks@[i as int]@)) by {
            if found {
                let k = choose|k: int| 0 <= k < i && ks@[k]@ == ks@[i as int]@;
                assert(pre[k] == ks@[i as int]@);
            }
            if pre.contains(ks@[i as int]@) {
                let k = choose|k: int| 0 <= k < pre.len() && pre[k] == ks@[i as int]@;
                assert(ks@[k]@ == ks@[i as int]@);
            }
        }
        if !found {
            n += 1;
        }
        i += 1;
    }
    assert(v.take(ks@.len() as int) =~= v);
    n
}

/// The movetext reader.
pub struct ExtractMove {}

impl ExtractMove {
    /// A movetext reader.
    pub fn new() -> (r: ExtractMove) {
        ExtractMove {}
    }

    /// Reads the movetext `text` whole: its move tokens in document order, the
    /// number of distinct move-index markers in it, and its result sentinel;
    /// `None` when `text` is not a complete, well-formed movetext.
    pub fn extract(&self, text: &str) -> (r: Option<(Vec<String>, usize, String)>)
        ensures
            match parse_movetext(text@) {
                None => r is None,
                Some(l) => r matches Some((ms, n, res)) && views(ms@) == l.moves && n
                    == l.markers.to_set().len() && res@ == l.result,
            },
    {
        let s = chars_of(text);
        match parse_moves(s.as_slice()) {
            None => None,
            Some((moves, markers, result)) => {
                let n = count_distinct(&markers);
                proof {
                    lemma_distinct_count_is_set_len(views(markers@));
                }
                Some((moves, n, result))
            },
        }
    }
}

} // verus!
