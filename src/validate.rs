//! Record validation: the result tag, the movetext and the move count are
//! checked against each other; accepted games get a fingerprint of their moves.

use vstd::prelude::*;
use vstd::string::StringExecFns;
use vstd::utf8::encode_utf8;
use crate::movetext::{ExtractMove, parse_movetext, is_result, views, result_in};
use crate::tags::Tags;
use crate::text::{chars_of, decimal, push_decimal};

verus! {

/// Why a record was rejected.
pub enum Rejection {
    /// The tags have no `Result`.
    MissingResultTag,
    /// The `Result` tag holds this value, which is no result sentinel.
    BadResultTag(String),
    /// The movetext is not a complete, well-formed movetext.
    NoMoveList,
    /// The `Result` tag (first) differs from the movetext's sentinel (second).
    ResultMismatch(String, String),
    /// The number of distinct move indexes (first) does not fit the number of
    /// move tokens (second).
    CountMismatch(usize, usize),
}

/// The outcome of validation, over views.
pub enum Verdict {
    Accept(Seq<Seq<char>>),
    MissingResultTag,
    BadResultTag(Seq<char>),
    NoMoveList,
    ResultMismatch(Seq<char>, Seq<char>),
    CountMismatch(nat, nat),
}

/// `moves` tokens fit `last_index` distinct move indexes when the game ends
/// after Black's move (`2 * last_index`) or after White's (`2 * last_index - 1`).
pub open spec fn count_fits(last_index: nat, moves: nat) -> bool {
    moves == 2 * last_index || moves + 1 == 2 * last_index
}

/// The checks of a record, in order; the first that fails decides.
pub open spec fn verdict(tags: Map<Seq<char>, Seq<char>>, moves_text: Seq<char>) -> Verdict {
    let key = "Result"@;
    if !tags.contains_key(key) {
        Verdict::MissingResultTag
    } else if !is_result(tags[key]) {
        Verdict::BadResultTag(tags[key])
    } else {
        match parse_movetext(moves_text) {
            None => Verdict::NoMoveList,
            Some(l) => if l.result != tags[key] {
                Verdict::ResultMismatch(tags[key], l.result)
            } else if !count_fits(l.markers.to_set().len(), l.moves.len()) {
                Verdict::CountMismatch(l.markers.to_set().len(), l.moves.len())
            } else {
                Verdict::Accept(l.moves)
            },
        }
    }
}

impl Rejection {
    /// The verdict this rejection stands for.
    pub open spec fn verdict(&self) -> Verdict {
        match self {
            Rejection::MissingResultTag => Verdict::MissingResultTag,
            Rejection::BadResultTag(v) => Verdict::BadResultTag(v@),
            Rejection::NoMoveList => Verdict::NoMoveList,
            Rejection::ResultMismatch(t, s) => Verdict::ResultMismatch(t@, s@),
            Rejection::CountMismatch(n, m) => Verdict::CountMismatch(*n as nat, *m as nat),
        }
    }

    /// The reason in words.
    pub open spec fn text(&self) -> Seq<char> {
        match self {
            Rejection::MissingResultTag => "missing result tag"@,
            Rejection::BadResultTag(v) => "bad result tag ("@ + v@ + ")"@,
            Rejection::NoMoveList => "cannot extract move list"@,
            Rejection::ResultMismatch(t, s) => "result tag ("@ + t@ + ") != result sentinel ("@
                + s@ + ")"@,
            Rejection::CountMismatch(n, m) => "last move index == "@ + decimal(*n as nat)
                + ", but # of moves (white + black) == "@ + decimal(*m as nat),
        }
    }

    pub fn message(&self) -> (r: String)
        ensures
            r@ == self.text(),
    {
        match self {
            Rejection::MissingResultTag => String::from_str("missing result tag"),
            Rejection::BadResultTag(v) => {
                let mut r = String::from_str("bad result tag (");
                r.append(v.as_str());
                r.append(")");
                r
            },
            Rejection::NoMoveList => String::from_str("cannot extract move list"),
            Rejection::ResultMismatch(t, s) => {
                let mut r = String::from_str("result tag (");
                r.append(t.as_str());
                r.append(") != result sentinel (");
                r.append(s.as_str());
                r.append(")");
                r
            },
            Rejection::CountMismatch(n, m) => {
                let mut r = String::from_str("last move index == ");
                push_decimal(&mut r, *n);
                r.append(", but # of moves (white + black) == ");
                push_decimal(&mut r, *m);
                r
            },
        }
    }
}

/// Checks a record's tags against its movetext; on success gives its move tokens.
pub fn check_record(tags: &Tags, moves_text: &String) -> (r: Result<Vec<String>, Rejection>)
    requires
        tags.wf(),
    ensures
        match r {
            Ok(ms) => verdict(tags@, moves_text@) == Verdict::Accept(views(ms@)),
            Err(e) => verdict(tags@, moves_text@) == e.verdict(),
        },
{
    let result_tag = match tags.get("Result") {
        None => {
            return Err(Rejection::MissingResultTag);
        },
        Some(t) => t,
    };
    let tc = chars_of(result_tag.as_str());
    if !result_in(tc.as_slice(), 0, tc.len()) {
        assert(tc@.subrange(0, tc@.len() as int) =~= tc@);
        return Err(Rejection::BadResultTag(result_tag.clone()));
    }
    assert(tc@.subrange(0, tc@.len() as int) =~= tc@);
    let extractor = ExtractMove::new();
    let (moves, last_index, result) = match extractor.extract(moves_text.as_str()) {
        None => {
            return Err(Rejection::NoMoveList);
        },
        Some(x) => x,
    };
    if result != *result_tag {
        return Err(Rejection::ResultMismatch(result_tag.clone(), result));
    }
    let m = moves.len();
    let fits = (m % 2 == 0 && m / 2 == last_index) || (m % 2 == 1 && m / 2 + 1 == last_index);
    assert(fits == count_fits(last_index as nat, m as nat));
    if !fits {
        return Err(Rejection::CountMismatch(last_index, m));
    }
    Ok(moves)
}

/// Names what `seahash::hash` gives for a byte string.
pub uninterp spec fn sea_hash(bytes: Seq<u8>) -> u64;

/// Relies on `seahash::hash`: SeaHash with the crate's default seeds, a
/// function of the bytes alone. (The crate's streaming `SeaHasher` gives the
/// same value for the same bytes, however the writes split them.)
#[verifier::external_body]
fn sea_hash_bytes(bytes: &[u8]) -> (r: u64)
    ensures
        r == sea_hash(bytes@),
{
    seahash::hash(bytes)
}

/// The UTF-8 bytes of the move tokens, one after the other.
pub open spec fn moves_bytes(moves: Seq<Seq<char>>) -> Seq<u8>
    decreases moves.len(),
{
    if moves.len() == 0 {
        seq![]
    } else {
        moves_bytes(moves.drop_last()) + encode_utf8(moves.last())
    }
}

/// The fingerprint of a move sequence.
pub open spec fn fingerprint(moves: Seq<Seq<char>>) -> u64 {
    sea_hash(moves_bytes(moves))
}

/// The fingerprint of `moves`: a seeded, non-cryptographic 64-bit hash of
/// their bytes in order.
pub fn moves_fingerprint(moves: &Vec<String>) -> (r: u64)
    ensures
        r == fingerprint(views(moves@)),
{
    let mut bytes: Vec<u8> = Vec::new();
    let mut i: usize = 0;
    while i < moves.len()
        invariant
            i <= moves@.len(),
            bytes@ == moves_bytes(views(moves@).take(i as int)),
        decreases moves@.len() - i,
    {
        let b = moves[i].as_str().as_bytes();
        let ghost start = bytes@;
        let mut j: usize = 0;
        while j < b.len()
            invariant
                j <= b@.len(),
                bytes@ == start + b@.take(j as int),
            decreases b@.len() - j,
        {
            bytes.push(b[j]);
            assert(b@.take(j + 1) =~= b@.take(j as int).push(b@[j as int]));
            j += 1;
        }
        assert(b@.take(b@.len() as int) =~= b@);
        assert(views(moves@).take(i + 1).drop_last() =~= views(moves@).take(i as int));
        i += 1;
    }
    assert(views(moves@).take(moves@.len() as int) =~= views(moves@));
    sea_hash_bytes(bytes.as_slice())
}

/// Equal move sequences have equal fingerprints.
pub proof fn lemma_fingerprint_deterministic(a: Seq<Seq<char>>, b: Seq<Seq<char>>)
    requires
        a == b,
    ensures
        fingerprint(a) == fingerprint(b),
{
}

} // verus!
