//! Standard Algebraic Notation: the grammar of a single move token.

use vstd::prelude::*;
use crate::text::{chars_of, string_of};

verus! {

pub open spec fn is_piece(c: char) -> bool {
    c == 'P' || c == 'N' || c == 'B' || c == 'R' || c == 'Q' || c == 'K'
}

pub open spec fn is_file(c: char) -> bool {
    'a' <= c && c <= 'h'
}

pub open spec fn is_rank(c: char) -> bool {
    '1' <= c && c <= '8'
}

pub open spec fn is_check_mark(c: char) -> bool {
    c == '+' || c == '#'
}

/// Length of the check or mate suffix of `w` (0 or 1).
pub open spec fn check_len(w: Seq<char>) -> int {
    if w.len() > 0 && is_check_mark(w.last()) { 1 } else { 0 }
}

/// Length of the promotion suffix `=X` of `a` (0 or 2).
pub open spec fn promotion_len(a: Seq<char>) -> int {
    if a.len() >= 2 && a[a.len() - 2] == '=' && is_piece(a.last()) { 2 } else { 0 }
}

/// The six parts of a SAN token, each of its own shape: an optional piece
/// letter; an optional disambiguation (a file, a rank, or both); an optional
/// capture mark `x`; the destination square; an optional promotion `=X`; an
/// optional check or mate mark.
pub open spec fn san_parts_ok(
    piece: Seq<char>,
    dis: Seq<char>,
    capture: Seq<char>,
    target: Seq<char>,
    promotion: Seq<char>,
    check: Seq<char>,
) -> bool {
    &&& piece.len() == 0 || (piece.len() == 1 && is_piece(piece[0]))
    &&& dis.len() == 0 || (dis.len() == 1 && (is_file(dis[0]) || is_rank(dis[0]))) || (dis.len()
        == 2 && is_file(dis[0]) && is_rank(dis[1]))
    &&& capture.len() == 0 || capture == seq!['x']
    &&& target.len() == 2 && is_file(target[0]) && is_rank(target[1])
    &&& promotion.len() == 0 || (promotion.len() == 2 && promotion[0] == '=' && is_piece(
        promotion[1],
    ))
    &&& check.len() == 0 || (check.len() == 1 && is_check_mark(check[0]))
}

/// `w` cut at `c` (the ends of the piece letter, the disambiguation, the
/// capture mark, the destination square and the promotion) gives well-shaped
/// SAN parts.
pub open spec fn san_split_at(w: Seq<char>, c: (int, int, int, int, int)) -> bool {
    &&& 0 <= c.0 <= c.1 <= c.2 <= c.3 <= c.4 <= w.len()
    &&& san_parts_ok(
        w.subrange(0, c.0),
        w.subrange(c.0, c.1),
        w.subrange(c.1, c.2),
        w.subrange(c.2, c.3),
        w.subrange(c.3, c.4),
        w.subrange(c.4, w.len() as int),
    )
}

/// A SAN token: `piece? file? rank? 'x'? file rank ('=' piece)? ('+' | '#')?`.
pub open spec fn is_san(w: Seq<char>) -> bool {
    exists|c: (int, int, int, int, int)| #[trigger] san_split_at(w, c)
}

/// Decodes a SAN token from its end: the cut points of its parts, or `None`.
pub open spec fn san_cuts(w: Seq<char>) -> Option<(int, int, int, int, int)> {
    let a_len = w.len() - check_len(w);
    let a = w.take(a_len);
    let b_len = a_len - promotion_len(a);
    if b_len < 2 || !is_file(w[b_len - 2]) || !is_rank(w[b_len - 1]) {
        None
    } else {
        let h = b_len - 2;
        let i1 = if h > 0 && is_piece(w[0]) { 1int } else { 0 };
        let i2 = if h > i1 && is_file(w[i1]) { i1 + 1 } else { i1 };
        let i3 = if h > i2 && is_rank(w[i2]) { i2 + 1 } else { i2 };
        let i4 = if h > i3 && w[i3] == 'x' { i3 + 1 } else { i3 };
        if i4 != h {
            None
        } else {
            Some((i1, i3, i4, b_len, a_len))
        }
    }
}

/// What the decoder finds is a well-shaped split.
proof fn lemma_san_cuts_sound(w: Seq<char>)
    requires
        san_cuts(w) is Some,
    ensures
        san_split_at(w, san_cuts(w)->0),
{
    let c = san_cuts(w)->0;
    let d = w.subrange(c.0, c.1);
    assert(w.subrange(c.2, c.3) =~= seq![w[c.2], w[c.2 + 1]]);
    if d.len() == 2 {
        assert(d[0] == w[c.0] && d[1] == w[c.0 + 1]);
    }
    if c.2 > c.1 {
        assert(w.subrange(c.1, c.2) =~= seq!['x']);
    }
    if c.4 > c.3 {
        assert(w.subrange(c.3, c.4)[0] == w[c.3]);
    }
}

/// Every well-shaped split is the one the decoder finds.
proof fn lemma_san_cuts_complete(w: Seq<char>, c: (int, int, int, int, int))
    requires
        san_split_at(w, c),
    ensures
        san_cuts(w) == Some(c),
{
    let n = w.len() as int;
    let dis = w.subrange(c.0, c.1);
    let cap = w.subrange(c.1, c.2);
    let tgt = w.subrange(c.2, c.3);
    let pro = w.subrange(c.3, c.4);
    let chk = w.subrange(c.4, n);
    assert(tgt[0] == w[c.2] && tgt[1] == w[c.2 + 1]);
    assert(c.3 == c.2 + 2);
    if chk.len() == 1 {
        assert(chk[0] == w[n - 1]);
    }
    if pro.len() == 2 {
        assert(pro[0] == w[c.3] && pro[1] == w[c.3 + 1]);
    }
    assert(check_len(w) == n - c.4);
    let a = w.take(c.4);
    assert(promotion_len(a) == c.4 - c.3);
    if dis.len() >= 1 {
        assert(dis[0] == w[c.0]);
    }
    if dis.len() == 2 {
        assert(dis[1] == w[c.0 + 1]);
    }
    if cap.len() == 1 {
        assert(cap[0] == w[c.1]);
    }
    if c.0 == 1 {
        assert(w.subrange(0, c.0)[0] == w[0]);
    }
}

/// Whether `w` is a SAN token is what the decoder says.
pub proof fn lemma_is_san_decodes(w: Seq<char>)
    ensures
        is_san(w) == (san_cuts(w) is Some),
{
    if san_cuts(w) is Some {
        lemma_san_cuts_sound(w);
    }
    if is_san(w) {
        let c = choose|c: (int, int, int, int, int)| san_split_at(w, c);
        lemma_san_cuts_complete(w, c);
    }
}

/// A SAN token splits into its parts in one way only.
pub proof fn lemma_san_split_unique(w: Seq<char>, c: (int, int, int, int, int), e: (int, int, int, int, int))
    requires
        san_split_at(w, c),
        san_split_at(w, e),
    ensures
        c == e,
{
    lemma_san_cuts_complete(w, c);
    lemma_san_cuts_complete(w, e);
}

/// Castling, `O-O` or `O-O-O`, with an optional check or mate suffix.
pub open spec fn is_castle(w: Seq<char>) -> bool {
    let a = w.take(w.len() - check_len(w));
    a == seq!['O', '-', 'O'] || a == seq!['O', '-', 'O', '-', 'O']
}

/// A move token: a SAN token or a castling.
pub open spec fn is_move_token(w: Seq<char>) -> bool {
    is_san(w) || is_castle(w)
}

fn is_piece_char(c: char) -> (r: bool)
    ensures
        r == is_piece(c),
{
    c == 'P' || c == 'N' || c == 'B' || c == 'R' || c == 'Q' || c == 'K'
}

/// The cut points of the SAN token `s[from..to]`, relative to `from`.
#[verifier::rlimit(40)]
pub fn san_cuts_in(s: &[char], from: usize, to: usize) -> (r: Option<(usize, usize, usize, usize, usize)>)
    requires
        from <= to <= s@.len(),
    ensures
        match san_cuts(s@.subrange(from as int, to as int)) {
            None => r is None,
            Some(c) => r matches Some((i1, i3, i4, b, a)) && c == (
                i1 as int,
                i3 as int,
                i4 as int,
                b as int,
                a as int,
            ),
        },
{
    let ghost w = s@.subrange(from as int, to as int);
    let n = to - from;
    let a_len = if n > 0 && (s[to - 1] == '+' || s[to - 1] == '#') { n - 1 } else { n };
    assert(a_len == w.len() - check_len(w));
    let ghost a = w.take(a_len as int);
    let b_len = if a_len >= 2 && s[from + a_len - 2] == '=' && is_piece_char(s[from + a_len - 1]) {
        a_len - 2
    } else {
        a_len
    };
    assert(b_len == a_len - promotion_len(a));
    if b_len < 2 {
        return None;
    }
    let f = s[from + b_len - 2];
    let rk = s[from + b_len - 1];
    if !('a' <= f && f <= 'h') || !('1' <= rk && rk <= '8') {
        return None;
    }
    let h = b_len - 2;
    let i1: usize = if h > 0 && is_piece_char(s[from]) { 1 } else { 0 };
    let i2: usize = if h > i1 && 'a' <= s[from + i1] && s[from + i1] <= 'h' { i1 + 1 } else { i1 };
    let i3: usize = if h > i2 && '1' <= s[from + i2] && s[from + i2] <= '8' { i2 + 1 } else { i2 };
    let i4: usize = if h > i3 && s[from + i3] == 'x' { i3 + 1 } else { i3 };
    if i4 != h {
        None
    } else {
        Some((i1, i3, i4, b_len, a_len))
    }
}

/// Whether `s[from..to]` is a castling token.
pub fn castle_in(s: &[char], from: usize, to: usize) -> (r: bool)
    requires
        from <= to <= s@.len(),
    ensures
        r == is_castle(s@.subrange(from as int, to as int)),
{
    let ghost w = s@.subrange(from as int, to as int);
    let n = to - from;
    let a_len = if n > 0 && (s[to - 1] == '+' || s[to - 1] == '#') { n - 1 } else { n };
    let ghost a = w.take(a_len as int);
    assert(a == w.take(w.len() - check_len(w)));
    if a_len == 3 {
        let r = s[from] == 'O' && s[from + 1] == '-' && s[from + 2] == 'O';
        assert(r ==> a =~= seq!['O', '-', 'O']);
        assert(a == seq!['O', '-', 'O'] ==> a[0] == 'O' && a[1] == '-' && a[2] == 'O');
        r
    } else if a_len == 5 {
        let r = s[from] == 'O' && s[from + 1] == '-' && s[from + 2] == 'O' && s[from + 3] == '-'
            && s[from + 4] == 'O';
        assert(r ==> a =~= seq!['O', '-', 'O', '-', 'O']);
        assert(a == seq!['O', '-', 'O', '-', 'O'] ==> a[0] == 'O' && a[1] == '-' && a[2] == 'O'
            && a[3] == '-' && a[4] == 'O');
        r
    } else {
        assert(a.len() != 3 && a.len() != 5);
        false
    }
}

/// The parts of a SAN token.
pub struct San {
    /// The piece letter, empty for a pawn.
    pub piece: String,
    /// The file and/or rank of the moving piece, when written.
    pub disambiguation: String,
    /// `x` for a capture, else empty.
    pub capture: String,
    /// The destination square.
    pub target: String,
    /// `=` and the piece promoted to, else empty.
    pub promotion: String,
    /// `+` or `#`, else empty.
    pub check: String,
}

/// Splits a SAN token into its parts; `None` when `text` is not one.
#[verifier::rlimit(40)]
pub fn split_san(text: &str) -> (r: Option<San>)
    ensures
        match r {
            None => !is_san(text@),
            Some(san) => {
                &&& text@ == san.piece@ + san.disambiguation@ + san.capture@ + san.target@
                    + san.promotion@ + san.check@
                &&& san_parts_ok(
                    san.piece@,
                    san.disambiguation@,
                    san.capture@,
                    san.target@,
                    san.promotion@,
                    san.check@,
                )
            },
        },
{
    let s = chars_of(text);
    assert(s@.subrange(0, s@.len() as int) == s@);
    proof {
        lemma_is_san_decodes(s@);
    }
    match san_cuts_in(s.as_slice(), 0, s.len()) {
        None => None,
        Some((i1, i3, i4, b, a)) => {
            proof {
                lemma_san_cuts_sound(s@);
            }
            let san = San {
                piece: string_of(s.as_slice(), 0, i1),
                disambiguation: string_of(s.as_slice(), i1, i3),
                capture: string_of(s.as_slice(), i3, i4),
                target: string_of(s.as_slice(), i4, b),
                promotion: string_of(s.as_slice(), b, a),
                check: string_of(s.as_slice(), a, s.len()),
            };
            assert(s@ =~= san.piece@ + san.disambiguation@ + san.capture@ + san.target@
                + san.promotion@ + san.check@);
            Some(san)
        },
    }
}

} // verus!
