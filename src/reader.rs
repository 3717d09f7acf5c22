//! The record segmenter: a state machine that is fed the archive's lines one
//! at a time and assembles, validates and hands out one record at a time.
//!
//! A record begins at a tag line and ends where the next record's first tag
//! line appears after its movetext, or at the end of the stream. Blank lines
//! only separate.

use vstd::prelude::*;
use vstd::string::StringExecFns;
use crate::lines::{LineKind, classify, tag_of, trim};
use crate::movetext::{CharClass, parse_movetext, run_end, run_end_in};
use crate::record::{Pgn, PgnView, record_id};
use crate::text::{chars_of, decimal, push_char, push_decimal, string_of};
use crate::validate::{Rejection, Verdict, check_record, fingerprint, moves_fingerprint, verdict};

verus! {

/// Where the segmenter stands.
#[derive(Clone, Copy, PartialEq, Eq)]
pub enum ReaderState {
    /// No record begun yet.
    Start,
    /// Inside a tag block.
    Tags,
    /// Inside a movetext block.
    Moves,
    /// The stream is done; nothing more comes.
    Ended,
}

/// What the line source delivered.
pub enum LineEvent {
    /// One line of text.
    Line(String),
    /// The end of the stream.
    End,
    /// A read failure, with its description.
    Failed(String),
}

/// A line event over views.
pub enum LineEventView {
    Line(Seq<char>),
    End,
    Failed(Seq<char>),
}

impl View for LineEvent {
    type V = LineEventView;

    open spec fn view(&self) -> LineEventView {
        match self {
            LineEvent::Line(s) => LineEventView::Line(s@),
            LineEvent::End => LineEventView::End,
            LineEvent::Failed(s) => LineEventView::Failed(s@),
        }
    }
}

/// What ended a stream early.
pub enum ReadErrorKind {
    /// The line source failed.
    Io(String),
    /// The stream ended inside a tag block.
    EndedUnexpectedly,
    /// A line that is neither blank nor a tag pair came before any tag block.
    UnexpectedLine(String),
}

/// A fatal error, with the number of the line at which it came.
pub struct ReadError {
    pub line: usize,
    pub kind: ReadErrorKind,
}

/// A rejected record: the line at which it ended, why, and its raw text.
pub struct BadPgn {
    pub line: usize,
    pub reason: Rejection,
    pub tags_text: String,
    pub moves_text: String,
}

impl ReadError {
    /// The error in words.
    pub open spec fn text(&self) -> Seq<char> {
        "Line "@ + decimal(self.line as nat) + ": "@ + match self.kind {
            ReadErrorKind::Io(m) => m@,
            ReadErrorKind::EndedUnexpectedly => "Ended unexpectedly."@,
            ReadErrorKind::UnexpectedLine(l) => "Unexpected line: "@ + l@,
        }
    }

    pub fn message(&self) -> (r: String)
        ensures
            r@ == self.text(),
    {
        let mut r = String::from_str("Line ");
        push_decimal(&mut r, self.line);
        r.append(": ");
        match &self.kind {
            ReadErrorKind::Io(m) => r.append(m.as_str()),
            ReadErrorKind::EndedUnexpectedly => r.append("Ended unexpectedly."),
            ReadErrorKind::UnexpectedLine(l) => {
                r.append("Unexpected line: ");
                r.append(l.as_str());
            },
        }
        r
    }
}

impl BadPgn {
    /// The rejection in words, followed by the record's raw text.
    pub open spec fn text(&self) -> Seq<char> {
        "Line "@ + decimal(self.line as nat) + ": invalid pgn: "@ + self.reason.text() + "\n"@
            + self.tags_text@ + "\n"@ + self.moves_text@ + "\n"@
    }

    pub fn message(&self) -> (r: String)
        ensures
            r@ == self.text(),
    {
        let mut r = String::from_str("Line ");
        push_decimal(&mut r, self.line);
        r.append(": invalid pgn: ");
        let reason = self.reason.message();
        r.append(reason.as_str());
        r.append("\n");
        r.append(self.tags_text.as_str());
        r.append("\n");
        r.append(self.moves_text.as_str());
        r.append("\n");
        r
    }
}

/// What a call hands out.
pub enum ReadOutcome {
    Game(Pgn),
    BadPgn(BadPgn),
    Ended,
    Error(ReadError),
}

/// A fatal error's kind over views.
pub enum ErrorView {
    Io(Seq<char>),
    EndedUnexpectedly,
    UnexpectedLine(Seq<char>),
}

/// An outcome over views; a rejected record carries its line, the verdict and
/// its raw tag and movetext.
pub enum OutcomeView {
    Game(PgnView),
    BadPgn(nat, Verdict, Seq<char>, Seq<char>),
    Ended,
    Error(nat, ErrorView),
}

impl View for ReadOutcome {
    type V = OutcomeView;

    open spec fn view(&self) -> OutcomeView {
        match self {
            ReadOutcome::Game(p) => OutcomeView::Game(p@),
            ReadOutcome::BadPgn(b) => OutcomeView::BadPgn(
                b.line as nat,
                b.reason.verdict(),
                b.tags_text@,
                b.moves_text@,
            ),
            ReadOutcome::Ended => OutcomeView::Ended,
            ReadOutcome::Error(e) => OutcomeView::Error(
                e.line as nat,
                match e.kind {
                    ReadErrorKind::Io(m) => ErrorView::Io(m@),
                    ReadErrorKind::EndedUnexpectedly => ErrorView::EndedUnexpectedly,
                    ReadErrorKind::UnexpectedLine(l) => ErrorView::UnexpectedLine(l@),
                },
            ),
        }
    }
}

/// The view of an optional outcome.
pub open spec fn outcome_view(r: Option<ReadOutcome>) -> Option<OutcomeView> {
    match r {
        None => None,
        Some(o) => Some(o@),
    }
}

/// The segmenter over views.
pub struct ReaderView {
    pub prefix: Seq<char>,
    pub state: ReaderState,
    pub line: nat,
    pub count: nat,
    pub pending: Option<PgnView>,
}

/// The part of a file name before its first full stop.
pub open spec fn name_prefix(name: Seq<char>) -> Seq<char> {
    name.take(run_end(name, 0, CharClass::NonDot))
}

/// `n + 1`, kept at the largest `usize`.
pub open spec fn next_count(n: nat) -> nat {
    if n < usize::MAX { n + 1 } else { n }
}

/// A record that has just begun.
pub open spec fn fresh(prefix: Seq<char>, index: nat) -> PgnView {
    PgnView {
        id: record_id(prefix, index),
        tags: Map::empty(),
        moves: seq![],
        tags_text: seq![],
        moves_text: seq![],
        fingerprint: 0,
    }
}

/// `p` after its tag line `t`, which sets `name` to `value`.
pub open spec fn with_tag(p: PgnView, name: Seq<char>, value: Seq<char>, t: Seq<char>) -> PgnView {
    PgnView { tags: p.tags.insert(name, value), tags_text: p.tags_text + t + seq!['\n'], ..p }
}

/// `p` after its movetext line `t`.
pub open spec fn with_moves_line(p: PgnView, t: Seq<char>) -> PgnView {
    PgnView { moves_text: p.moves_text + t + seq!['\n'], ..p }
}

/// The outcome for the finished record `p`, ended at line `line`.
pub open spec fn finalize(p: PgnView, line: nat) -> OutcomeView {
    match verdict(p.tags, p.moves_text) {
        Verdict::Accept(ms) => OutcomeView::Game(PgnView { moves: ms, fingerprint: fingerprint(ms), ..p }),
        v => OutcomeView::BadPgn(line, v, p.tags_text, p.moves_text),
    }
}

/// One transition: the segmenter `r` takes the event `ev`, and moves to a new
/// state, with an outcome for the caller or none (it wants the next line).
pub open spec fn step(r: ReaderView, ev: LineEventView) -> (ReaderView, Option<OutcomeView>) {
    if r.state == ReaderState::Ended {
        (r, Some(OutcomeView::Ended))
    } else {
        let line = next_count(r.line);
        let r1 = ReaderView { line, ..r };
        let ended = ReaderView { state: ReaderState::Ended, pending: None, ..r1 };
        match ev {
            LineEventView::Failed(msg) => (ended, Some(OutcomeView::Error(line, ErrorView::Io(msg)))),
            LineEventView::End => match r.state {
                ReaderState::Moves => (ended, Some(finalize(r.pending->0, line))),
                ReaderState::Tags => (
                    ended,
                    Some(OutcomeView::Error(line, ErrorView::EndedUnexpectedly)),
                ),
                _ => (ended, Some(OutcomeView::Ended)),
            },
            LineEventView::Line(text) => {
                let t = trim(text);
                if t.len() == 0 {
                    (r1, None)
                } else {
                    match tag_of(t) {
                        Some((k, v)) => if r.state == ReaderState::Tags {
                            (ReaderView { pending: Some(with_tag(r.pending->0, k, v, t)), ..r1 }, None)
                        } else {
                            let c = next_count(r.count);
                            let r2 = ReaderView {
                                state: ReaderState::Tags,
                                count: c,
                                pending: Some(with_tag(fresh(r.prefix, c), k, v, t)),
                                ..r1
                            };
                            if r.state == ReaderState::Moves {
                                (r2, Some(finalize(r.pending->0, line)))
                            } else {
                                (r2, None)
                            }
                        },
                        None => if r.state == ReaderState::Start {
                            (ended, Some(OutcomeView::Error(line, ErrorView::UnexpectedLine(text))))
                        } else {
                            (
                                ReaderView {
                                    state: ReaderState::Moves,
                                    pending: Some(with_moves_line(r.pending->0, t)),
                                    ..r1
                                },
                                None,
                            )
                        },
                    }
                }
            },
        }
    }
}

/// Validates the finished record `p`, ended at line `line`.
fn finish(p: Pgn, line: usize) -> (r: ReadOutcome)
    requires
        p.tags.wf(),
    ensures
        r@ == finalize(p@, line as nat),
{
    match check_record(&p.tags, &p.moves_text) {
        Ok(moves) => {
            let fp = moves_fingerprint(&moves);
            let mut p = p;
            p.moves = moves;
            p.moves_fingerprint = fp;
            ReadOutcome::Game(p)
        },
        Err(reason) => ReadOutcome::BadPgn(
            BadPgn { line, reason, tags_text: p.tags_text, moves_text: p.moves_text },
        ),
    }
}

/// Appends the line `t` and a newline to `s`.
fn push_line(s: &mut String, t: &String)
    ensures
        final(s)@ == old(s)@ + t@ + seq!['\n'],
{
    s.append(t.as_str());
    push_char(s, '\n');
}

/// The record segmenter of one archive.
pub struct Reader {
    prefix: String,
    state: ReaderState,
    line_number: usize,
    count: usize,
    /// The record being assembled. After a record was ended by the next one's
    /// first tag line, this already holds that next record.
    pending: Option<Pgn>,
}

impl View for Reader {
    type V = ReaderView;

    closed spec fn view(&self) -> ReaderView {
        ReaderView {
            prefix: self.prefix@,
            state: self.state,
            line: self.line_number as nat,
            count: self.count as nat,
            pending: match self.pending {
                None => None,
                Some(p) => Some(p@),
            },
        }
    }
}

impl Reader {
    /// A record is being assembled exactly while inside a tag or movetext block.
    pub closed spec fn wf(&self) -> bool {
        match self.state {
            ReaderState::Start => self.pending is None,
            ReaderState::Ended => self.pending is None,
            _ => self.pending matches Some(p) && p.tags.wf(),
        }
    }

    /// A segmenter for the archive named `file_name`; record identifiers are
    /// the part of that name before its first full stop, a full stop, and the
    /// record's number, counted from 1.
    pub fn new(file_name: &str) -> (r: Reader)
        ensures
            r.wf(),
            r@ == initial(name_prefix(file_name@)),
    {
        let s = chars_of(file_name);
        let e = run_end_in(s.as_slice(), 0, CharClass::NonDot);
        assert(s@.subrange(0, e as int) =~= s@.take(e as int));
        Reader {
            prefix: string_of(s.as_slice(), 0, e),
            state: ReaderState::Start,
            line_number: 0,
            count: 0,
            pending: None,
        }
    }

    /// Whether the stream is done, so that every further call hands out `Ended`.
    pub fn is_ended(&self) -> (r: bool)
        ensures
            r == (self@.state == ReaderState::Ended),
    {
        match self.state {
            ReaderState::Ended => true,
            _ => false,
        }
    }

    /// Takes the next event of the line source. Hands out an outcome, or `None`
    /// when it needs the next line first.
    pub fn advance(&mut self, event: LineEvent) -> (r: Option<ReadOutcome>)
        requires
            old(self).wf(),
        ensures
            final(self).wf(),
            (final(self)@, outcome_view(r)) == step(old(self)@, event@),
    {
        if self.is_ended() {
            return Some(ReadOutcome::Ended);
        }
        let line = self.line_number.saturating_add(1);
        self.line_number = line;
        match event {
            LineEvent::Failed(msg) => {
                self.state = ReaderState::Ended;
                self.pending = None;
                Some(ReadOutcome::Error(ReadError { line, kind: ReadErrorKind::Io(msg) }))
            },
            LineEvent::End => {
                let st = self.state;
                self.state = ReaderState::Ended;
                let p = self.pending.take();
                match st {
                    ReaderState::Moves => {
                        let p = p.unwrap();
                        Some(finish(p, line))
                    },
                    ReaderState::Tags => Some(
                        ReadOutcome::Error(ReadError { line, kind: ReadErrorKind::EndedUnexpectedly }),
                    ),
                    _ => Some(ReadOutcome::Ended),
                }
            },
            LineEvent::Line(text) => {
                match classify(text.as_str()) {
                    LineKind::Blank => None,
                    LineKind::Tag(k, v, t) => {
                        match self.state {
                            ReaderState::Tags => {
                                let mut p = self.pending.take().unwrap();
                                p.tags.insert(k, v);
                                push_line(&mut p.tags_text, &t);
                                self.pending = Some(p);
                                None
                            },
                            _ => {
                                let st = self.state;
                                let c = self.count.saturating_add(1);
                                self.count = c;
                                let mut p = Pgn::new(self.prefix.as_str(), c);
                                p.tags.insert(k, v);
                                push_line(&mut p.tags_text, &t);
                                let done = self.pending.take();
                                self.pending = Some(p);
                                self.state = ReaderState::Tags;
                                match st {
                                    ReaderState::Moves => Some(finish(done.unwrap(), line)),
                                    _ => None,
                                }
                            },
                        }
                    },
                    LineKind::Text(t) => {
                        match self.state {
                            ReaderState::Start => {
                                self.state = ReaderState::Ended;
                                Some(
                                    ReadOutcome::Error(
                                        ReadError { line, kind: ReadErrorKind::UnexpectedLine(text) },
                                    ),
                                )
                            },
                            _ => {
                                let mut p = self.pending.take().unwrap();
                                push_line(&mut p.moves_text, &t);
                                self.pending = Some(p);
                                self.state = ReaderState::Moves;
                                None
                            },
                        }
                    },
                }
            },
        }
    }
}

/// The segmenter `r` taking the events `evs` in order: its final state and
/// the answer to each event.
pub open spec fn run(r: ReaderView, evs: Seq<LineEventView>) -> (ReaderView, Seq<Option<OutcomeView>>)
    decreases evs.len(),
{
    if evs.len() == 0 {
        (r, seq![])
    } else {
        let (r1, o) = step(r, evs[0]);
        let (rf, os) = run(r1, evs.drop_first());
        (rf, seq![o] + os)
    }
}

/// A fresh segmenter for record identifiers starting with `prefix`.
pub open spec fn initial(prefix: Seq<char>) -> ReaderView {
    ReaderView { prefix, state: ReaderState::Start, line: 0, count: 0, pending: None }
}

/// Each line as an event.
pub open spec fn line_events(lines: Seq<Seq<char>>) -> Seq<LineEventView> {
    lines.map_values(|l: Seq<char>| LineEventView::Line(l))
}

pub open spec fn is_blank(l: Seq<char>) -> bool {
    trim(l).len() == 0
}

pub open spec fn is_tag_line(l: Seq<char>) -> bool {
    tag_of(trim(l)) is Some
}

pub open spec fn is_moves_line(l: Seq<char>) -> bool {
    trim(l).len() > 0 && tag_of(trim(l)) is None
}

/// Whether some line of `lines` is a tag line.
pub open spec fn has_tag_line(lines: Seq<Seq<char>>) -> bool
    decreases lines.len(),
{
    lines.len() > 0 && (has_tag_line(lines.drop_last()) || is_tag_line(lines.last()))
}

/// Whether some line of `lines` is a movetext line.
pub open spec fn has_moves_line(lines: Seq<Seq<char>>) -> bool
    decreases lines.len(),
{
    lines.len() > 0 && (has_moves_line(lines.drop_last()) || is_moves_line(lines.last()))
}

/// The tags that the tag lines among `lines` set, a later line winning.
pub open spec fn tags_map(lines: Seq<Seq<char>>) -> Map<Seq<char>, Seq<char>>
    decreases lines.len(),
{
    if lines.len() == 0 {
        Map::empty()
    } else {
        let m = tags_map(lines.drop_last());
        match tag_of(trim(lines.last())) {
            Some((k, v)) => m.insert(k, v),
            None => m,
        }
    }
}

/// The non-blank lines of `lines`, trimmed, each followed by a newline.
pub open spec fn block_text(lines: Seq<Seq<char>>) -> Seq<char>
    decreases lines.len(),
{
    if lines.len() == 0 {
        seq![]
    } else if is_blank(lines.last()) {
        block_text(lines.drop_last())
    } else {
        block_text(lines.drop_last()) + trim(lines.last()) + seq!['\n']
    }
}

proof fn lemma_run_append(r: ReaderView, a: Seq<LineEventView>, b: Seq<LineEventView>)
    ensures
        run(r, a + b) == (run(run(r, a).0, b).0, run(r, a).1 + run(run(r, a).0, b).1),
    decreases a.len(),
{
    if a.len() == 0 {
        assert(a + b =~= b);
        assert(run(r, a).1 + run(r, b).1 =~= run(r, b).1);
    } else {
        let (r1, o) = step(r, a[0]);
        assert((a + b).drop_first() =~= a.drop_first() + b);
        lemma_run_append(r1, a.drop_first(), b);
        assert(seq![o] + (run(r1, a.drop_first()).1 + run(run(r1, a.drop_first()).0, b).1) =~= (seq![o]
            + run(r1, a.drop_first()).1) + run(run(r1, a.drop_first()).0, b).1);
    }
}

proof fn lemma_run_one(r: ReaderView, e: LineEventView)
    ensures
        run(r, seq![e]) == (step(r, e).0, seq![step(r, e).1]),
{
    assert(seq![e].drop_first() =~= seq![]);
    assert(run(step(r, e).0, seq![]) == (step(r, e).0, Seq::<Option<OutcomeView>>::empty()));
    assert(seq![step(r, e).1] + seq![] =~= seq![step(r, e).1]);
}

proof fn lemma_run_push(r: ReaderView, evs: Seq<LineEventView>, e: LineEventView)
    ensures
        run(r, evs.push(e)) == (step(run(r, evs).0, e).0, run(r, evs).1.push(step(run(r, evs).0, e).1)),
{
    assert(evs.push(e) =~= evs + seq![e]);
    lemma_run_append(r, evs, seq![e]);
    lemma_run_one(run(r, evs).0, e);
    assert(run(r, evs).1 + seq![step(run(r, evs).0, e).1] =~= run(r, evs).1.push(
        step(run(r, evs).0, e).1,
    ));
}

proof fn lemma_run_len(r: ReaderView, evs: Seq<LineEventView>)
    ensures
        run(r, evs).1.len() == evs.len(),
    decreases evs.len(),
{
    if evs.len() > 0 {
        lemma_run_len(step(r, evs[0]).0, evs.drop_first());
    }
}

proof fn lemma_run_from_ended(r: ReaderView, evs: Seq<LineEventView>)
    requires
        r.state == ReaderState::Ended,
    ensures
        run(r, evs).0 == r,
        run(r, evs).1.len() == evs.len(),
        forall|i: int| 0 <= i < evs.len() ==> run(r, evs).1[i] == Some(OutcomeView::Ended),
    decreases evs.len(),
{
    if evs.len() > 0 {
        lemma_run_from_ended(r, evs.drop_first());
        let os = run(r, evs).1;
        assert forall|i: int| 0 <= i < evs.len() implies os[i] == Some(OutcomeView::Ended) by {
            if i > 0 {
                assert(os[i] == run(r, evs.drop_first()).1[i - 1]);
            }
        }
    }
}

/// Once a call hands out `Ended`, every later call hands out `Ended` again,
/// whatever the line source delivers.
pub proof fn lemma_ended_repeats(r: ReaderView, ev: LineEventView, later: Seq<LineEventView>)
    requires
        step(r, ev).1 == Some(OutcomeView::Ended),
    ensures
        step(r, ev).0.state == ReaderState::Ended,
        run(step(r, ev).0, later).1.len() == later.len(),
        forall|i: int| 0 <= i < later.len() ==> run(step(r, ev).0, later).1[i] == Some(OutcomeView::Ended),
{
    lemma_run_from_ended(step(r, ev).0, later);
}

/// The end of the stream right after movetext finishes the record, as a game
/// when it passes validation: it is never a truncation error.
pub proof fn lemma_end_after_movetext(r: ReaderView)
    requires
        r.state == ReaderState::Moves,
        r.pending is Some,
    ensures
        step(r, LineEventView::End).0.state == ReaderState::Ended,
        step(r, LineEventView::End).1 == Some(finalize(r.pending->0, next_count(r.line))),
        verdict(r.pending->0.tags, r.pending->0.moves_text) matches Verdict::Accept(ms) ==> step(
            r,
            LineEventView::End,
        ).1 == Some(OutcomeView::Game(PgnView { moves: ms, fingerprint: fingerprint(ms), ..r.pending->0 })),
{
}

proof fn lemma_line_events_push(lines: Seq<Seq<char>>, k: int)
    requires
        0 < k <= lines.len(),
    ensures
        line_events(lines.take(k)) == line_events(lines.take(k - 1)).push(
            LineEventView::Line(lines[k - 1]),
        ),
{
    assert(line_events(lines.take(k)) =~= line_events(lines.take(k - 1)).push(
        LineEventView::Line(lines[k - 1]),
    ));
}

proof fn lemma_blank_is_no_tag(l: Seq<char>)
    requires
        is_blank(l),
    ensures
        !is_tag_line(l),
{
}

/// After a run of tag and blank lines from the start.
proof fn lemma_tag_block(prefix: Seq<char>, head: Seq<Seq<char>>, k: int)
    requires
        0 <= k <= head.len(),
        forall|i: int| 0 <= i < head.len() ==> is_blank(#[trigger] head[i]) || is_tag_line(head[i]),
    ensures
        ({
            let (r, os) = run(initial(prefix), line_events(head.take(k)));
            &&& os.len() == k
            &&& forall|i: int| 0 <= i < k ==> os[i] is None
            &&& r.prefix == prefix
            &&& !has_tag_line(head.take(k)) ==> r.state == ReaderState::Start && r.pending is None
                && r.count == 0 && tags_map(head.take(k)) == Map::<Seq<char>, Seq<char>>::empty()
                && block_text(head.take(k)) == Seq::<char>::empty()
            &&& has_tag_line(head.take(k)) ==> r.state == ReaderState::Tags && r.count == 1
                && r.pending == Some(
                PgnView {
                    id: record_id(prefix, 1),
                    tags: tags_map(head.take(k)),
                    moves: seq![],
                    tags_text: block_text(head.take(k)),
                    moves_text: seq![],
                    fingerprint: 0,
                },
            )
        }),
    decreases k,
{
    let t = head.take(k);
    if k == 0 {
        assert(t =~= seq![]);
        assert(line_events(t) =~= seq![]);
    } else {
        lemma_tag_block(prefix, head, k - 1);
        let p = head.take(k - 1);
        assert(t.drop_last() =~= p);
        let l = head[k - 1];
        assert(t.last() == l);
        lemma_line_events_push(head, k);
        let (r0, os0) = run(initial(prefix), line_events(p));
        lemma_run_push(initial(prefix), line_events(p), LineEventView::Line(l));
        let os = run(initial(prefix), line_events(t)).1;
        assert(os =~= os0.push(step(r0, LineEventView::Line(l)).1));
        if is_blank(l) {
            lemma_blank_is_no_tag(l);
        }
    }
}

/// After the tag block, a run of movetext and blank lines.
proof fn lemma_moves_block(prefix: Seq<char>, head: Seq<Seq<char>>, body: Seq<Seq<char>>, j: int)
    requires
        0 <= j <= body.len(),
        forall|i: int| 0 <= i < head.len() ==> is_blank(#[trigger] head[i]) || is_tag_line(head[i]),
        has_tag_line(head),
        forall|i: int| 0 <= i < body.len() ==> is_blank(#[trigger] body[i]) || is_moves_line(body[i]),
    ensures
        ({
            let (r, os) = run(initial(prefix), line_events(head + body.take(j)));
            &&& os.len() == head.len() + j
            &&& forall|i: int| 0 <= i < head.len() + j ==> os[i] is None
            &&& r.state == if has_moves_line(body.take(j)) {
                ReaderState::Moves
            } else {
                ReaderState::Tags
            }
            &&& r.pending == Some(
                PgnView {
                    id: record_id(prefix, 1),
                    tags: tags_map(head),
                    moves: seq![],
                    tags_text: block_text(head),
                    moves_text: block_text(body.take(j)),
                    fingerprint: 0,
                },
            )
        }),
    decreases j,
{
    let all = head + body.take(j);
    if j == 0 {
        assert(head.take(head.len() as int) =~= head);
        assert(all =~= head);
        assert(body.take(0) =~= seq![]);
        lemma_tag_block(prefix, head, head.len() as int);
    } else {
        lemma_moves_block(prefix, head, body, j - 1);
        let prev = head + body.take(j - 1);
        let l = body[j - 1];
        assert(body.take(j).drop_last() =~= body.take(j - 1));
        assert(body.take(j).last() == l);
        assert(all.take(all.len() - 1) =~= prev);
        assert(all[all.len() - 1] == l);
        assert(all.take(all.len() as int) =~= all);
        lemma_line_events_push(all, all.len() as int);
        let (r0, os0) = run(initial(prefix), line_events(prev));
        lemma_run_push(initial(prefix), line_events(prev), LineEventView::Line(l));
        let os = run(initial(prefix), line_events(all)).1;
        assert(os =~= os0.push(step(r0, LineEventView::Line(l)).1));
    }
}

/// A single well-formed record: tag lines, then movetext lines (blank lines
/// may stand anywhere), then the end of the stream, where the record passes
/// validation. Every line is answered by a request for the next one; the end
/// of the stream by exactly one game, numbered 1, whose tags are those the tag
/// lines set and whose moves are the movetext's move tokens in document order.
pub proof fn lemma_single_record(
    prefix: Seq<char>,
    head: Seq<Seq<char>>,
    body: Seq<Seq<char>>,
    ms: Seq<Seq<char>>,
)
    requires
        forall|i: int| 0 <= i < head.len() ==> is_blank(#[trigger] head[i]) || is_tag_line(head[i]),
        has_tag_line(head),
        forall|i: int| 0 <= i < body.len() ==> is_blank(#[trigger] body[i]) || is_moves_line(body[i]),
        has_moves_line(body),
        verdict(tags_map(head), block_text(body)) == Verdict::Accept(ms),
    ensures
        ms == parse_movetext(block_text(body))->0.moves,
        ({
            let evs = line_events(head + body).push(LineEventView::End);
            let (r, os) = run(initial(prefix), evs);
            &&& os.len() == evs.len()
            &&& forall|i: int| 0 <= i < evs.len() - 1 ==> os[i] is None
            &&& os.last() == Some(
                OutcomeView::Game(
                    PgnView {
                        id: record_id(prefix, 1),
                        tags: tags_map(head),
                        moves: ms,
                        tags_text: block_text(head),
                        moves_text: block_text(body),
                        fingerprint: fingerprint(ms),
                    },
                ),
            )
            &&& r.state == ReaderState::Ended
        }),
{
    lemma_moves_block(prefix, head, body, body.len() as int);
    assert(body.take(body.len() as int) =~= body);
    let all = head + body;
    lemma_run_push(initial(prefix), line_events(all), LineEventView::End);
}

/// The end of the stream inside a tag block, before any movetext line, is an
/// error and never a game.
pub proof fn lemma_end_inside_tags(prefix: Seq<char>, head: Seq<Seq<char>>)
    requires
        forall|i: int| 0 <= i < head.len() ==> is_blank(#[trigger] head[i]) || is_tag_line(head[i]),
        has_tag_line(head),
    ensures
        ({
            let evs = line_events(head).push(LineEventView::End);
            let (r, os) = run(initial(prefix), evs);
            &&& os.len() == evs.len()
            &&& forall|i: int| 0 <= i < evs.len() - 1 ==> os[i] is None
            &&& os.last() matches Some(OutcomeView::Error(_, ErrorView::EndedUnexpectedly))
            &&& r.state == ReaderState::Ended
        }),
{
    lemma_tag_block(prefix, head, head.len() as int);
    assert(head.take(head.len() as int) =~= head);
    lemma_run_push(initial(prefix), line_events(head), LineEventView::End);
}

/// A blank line (empty, or whitespace only) is never a record boundary: it
/// changes nothing but the line count, and asks for the next line.
pub proof fn lemma_blank_line_changes_nothing(r: ReaderView, l: Seq<char>)
    requires
        r.state != ReaderState::Ended,
        is_blank(l),
    ensures
        step(r, LineEventView::Line(l)) == (ReaderView { line: next_count(r.line), ..r }, None::<OutcomeView>),
{
}

/// An outcome with the line number it carries (if any) set to 0.
pub open spec fn without_line(o: Option<OutcomeView>) -> Option<OutcomeView> {
    match o {
        Some(OutcomeView::BadPgn(_, v, t, m)) => Some(OutcomeView::BadPgn(0, v, t, m)),
        Some(OutcomeView::Error(_, e)) => Some(OutcomeView::Error(0, e)),
        _ => o,
    }
}

/// Outcomes with their line numbers set to 0.
pub open spec fn without_lines(os: Seq<Option<OutcomeView>>) -> Seq<Option<OutcomeView>>
    decreases os.len(),
{
    if os.len() == 0 {
        seq![]
    } else {
        seq![without_line(os[0])] + without_lines(os.drop_first())
    }
}

/// Two segmenters that differ at most in their line count.
pub open spec fn same_but_line(a: ReaderView, b: ReaderView) -> bool {
    ReaderView { line: 0, ..a } == ReaderView { line: 0, ..b }
}

proof fn lemma_step_same_but_line(a: ReaderView, b: ReaderView, e: LineEventView)
    requires
        same_but_line(a, b),
    ensures
        same_but_line(step(a, e).0, step(b, e).0),
        without_line(step(a, e).1) == without_line(step(b, e).1),
{
    assert(a.state == b.state && a.pending == b.pending && a.count == b.count && a.prefix == b.prefix);
}

proof fn lemma_run_same_but_line(a: ReaderView, b: ReaderView, evs: Seq<LineEventView>)
    requires
        same_but_line(a, b),
    ensures
        same_but_line(run(a, evs).0, run(b, evs).0),
        without_lines(run(a, evs).1) == without_lines(run(b, evs).1),
    decreases evs.len(),
{
    if evs.len() > 0 {
        lemma_step_same_but_line(a, b, evs[0]);
        lemma_run_same_but_line(step(a, evs[0]).0, step(b, evs[0]).0, evs.drop_first());
        let oa = run(a, evs).1;
        let ob = run(b, evs).1;
        assert(oa.drop_first() =~= run(step(a, evs[0]).0, evs.drop_first()).1);
        assert(ob.drop_first() =~= run(step(b, evs[0]).0, evs.drop_first()).1);
    }
}

proof fn lemma_without_lines_append(x: Seq<Option<OutcomeView>>, y: Seq<Option<OutcomeView>>)
    ensures
        without_lines(x + y) == without_lines(x) + without_lines(y),
    decreases x.len(),
{
    if x.len() == 0 {
        assert(x + y =~= y);
        assert(without_lines(x) + without_lines(y) =~= without_lines(y));
    } else {
        assert((x + y).drop_first() =~= x.drop_first() + y);
        lemma_without_lines_append(x.drop_first(), y);
        assert(without_lines(x + y) =~= without_lines(x) + without_lines(y));
    }
}

/// Blank lines are never record boundaries: a blank line inserted anywhere
/// into the input changes no outcome but for the line numbers they carry,
/// and is itself answered by a request for the next line (or by `Ended`
/// once the stream is done).
pub proof fn lemma_blank_line_is_no_boundary(
    r: ReaderView,
    a: Seq<LineEventView>,
    l: Seq<char>,
    b: Seq<LineEventView>,
)
    requires
        is_blank(l),
    ensures
        ({
            let with = run(r, a + seq![LineEventView::Line(l)] + b);
            let without = run(r, a + b);
            &&& same_but_line(with.0, without.0)
            &&& with.1.len() == without.1.len() + 1
            &&& without_lines(with.1.remove(a.len() as int)) == without_lines(without.1)
            &&& with.1[a.len() as int] == if run(r, a).0.state == ReaderState::Ended {
                Some(OutcomeView::Ended)
            } else {
                None
            }
        }),
{
    let ev = LineEventView::Line(l);
    let ra = run(r, a).0;
    let oa = run(r, a).1;
    assert(a + seq![ev] + b =~= a + (seq![ev] + b));
    lemma_run_append(r, a, seq![ev] + b);
    lemma_run_append(r, a, b);
    lemma_run_len(r, a);
    lemma_run_len(ra, b);
    let (r1, o1) = step(ra, ev);
    assert((seq![ev] + b).drop_first() =~= b);
    assert((seq![ev] + b)[0] == ev);
    let rest = run(r1, b).1;
    lemma_run_len(r1, b);
    let with = oa + (seq![o1] + rest);
    assert(with.remove(a.len() as int) =~= oa + rest);
    assert(with[a.len() as int] == o1);
    if ra.state == ReaderState::Ended {
        assert(r1 == ra);
    } else {
        lemma_blank_line_changes_nothing(ra, l);
        lemma_run_same_but_line(r1, ra, b);
        lemma_without_lines_append(oa, rest);
        lemma_without_lines_append(oa, run(ra, b).1);
    }
}

} // verus!
