//! Game records: the raw record of a tag block and movetext, and the validated game.

use vstd::prelude::*;
use vstd::string::StringExecFns;
use crate::movetext::views;
use crate::tags::Tags;
use crate::text::{decimal, push_char, push_decimal};

verus! {

/// The identifier of the `index`-th record of the archive whose name starts with `prefix`.
pub open spec fn record_id(prefix: Seq<char>, index: nat) -> Seq<char> {
    prefix + seq!['.'] + decimal(index)
}

fn make_id(prefix: &str, index: usize) -> (r: String)
    ensures
        r@ == record_id(prefix@, index as nat),
{
    let mut id = String::from_str(prefix);
    push_char(&mut id, '.');
    push_decimal(&mut id, index);
    id
}

/// A record as read, before validation.
pub struct RawPgn {
    pub id: String,
    pub tags: Tags,
    pub moves: String,
}

impl RawPgn {
    pub fn new(prefix: &str, index: usize) -> (r: RawPgn)
        ensures
            r.id@ == record_id(prefix@, index as nat),
            r.tags.wf(),
            r.tags@ == Map::<Seq<char>, Seq<char>>::empty(),
            r.moves@ == Seq::<char>::empty(),
    {
        RawPgn { id: make_id(prefix, index), tags: Tags::new(), moves: String::new() }
    }
}

/// A game record: its tags and movetext as read and, once validated, its move
/// tokens and their fingerprint.
pub struct Pgn {
    pub id: String,
    pub tags: Tags,
    pub moves: Vec<String>,
    /// The tag lines, each followed by a newline.
    pub tags_text: String,
    /// The movetext lines, each followed by a newline.
    pub moves_text: String,
    pub moves_fingerprint: u64,
}

/// A game record over views.
pub struct PgnView {
    pub id: Seq<char>,
    pub tags: Map<Seq<char>, Seq<char>>,
    pub moves: Seq<Seq<char>>,
    pub tags_text: Seq<char>,
    pub moves_text: Seq<char>,
    pub fingerprint: u64,
}

impl View for Pgn {
    type V = PgnView;

    open spec fn view(&self) -> PgnView {
        PgnView {
            id: self.id@,
            tags: self.tags@,
            moves: views(self.moves@),
            tags_text: self.tags_text@,
            moves_text: self.moves_text@,
            fingerprint: self.moves_fingerprint,
        }
    }
}

impl Pgn {
    pub fn new(prefix: &str, index: usize) -> (r: Pgn)
        ensures
            r.id@ == record_id(prefix@, index as nat),
            r.tags.wf(),
            r.tags@ == Map::<Seq<char>, Seq<char>>::empty(),
            r.moves@ == Seq::<String>::empty(),
            r.tags_text@ == Seq::<char>::empty(),
            r.moves_text@ == Seq::<char>::empty(),
            r.moves_fingerprint == 0,
            r@ == (PgnView {
                id: record_id(prefix@, index as nat),
                tags: Map::empty(),
                moves: seq![],
                tags_text: seq![],
                moves_text: seq![],
                fingerprint: 0,
            }),
    {
        let r = Pgn {
            id: make_id(prefix, index),
            tags: Tags::new(),
            moves: Vec::new(),
            tags_text: String::new(),
            moves_text: String::new(),
            moves_fingerprint: 0,
        };
        assert(views(r.moves@) =~= seq![]);
        r
    }
}

} // verus!
