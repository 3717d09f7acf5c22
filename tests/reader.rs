use mudfish::numbers::parse_to_number;
use mudfish::reader::{LineEvent, ReadErrorKind, ReadOutcome, Reader};
use mudfish::record::{Pgn, RawPgn};
use mudfish::tags::Tags;
use mudfish::validate::{moves_fingerprint, Rejection};

fn read_all(name: &str, lines: &[&str]) -> Vec<ReadOutcome> {
    let mut reader = Reader::new(name);
    let mut out = Vec::new();
    let mut i = 0;
    loop {
        let event = if i < lines.len() {
            LineEvent::Line(format!("{}\n", lines[i]))
        } else {
            LineEvent::End
        };
        i += 1;
        if let Some(o) = reader.advance(event) {
            let stop = matches!(o, ReadOutcome::Ended | ReadOutcome::Error(_));
            out.push(o);
            if stop {
                return out;
            }
        }
    }
}

fn game(o: &ReadOutcome) -> &Pgn {
    match o {
        ReadOutcome::Game(p) => p,
        _ => panic!("not a game"),
    }
}

fn reason(o: &ReadOutcome) -> String {
    match o {
        ReadOutcome::BadPgn(b) => b.reason.message(),
        _ => panic!("not a rejected record"),
    }
}

#[test]
fn accepts_a_single_game() {
    let out = read_all(
        "test.pgn",
        &["[Event \"Test\"]", "[Result \"1-0\"]", "", "1. e4 e5 2. Nf3 1-0"],
    );
    assert_eq!(out.len(), 2);
    let p = game(&out[0]);
    assert_eq!(p.id, "test.1");
    assert_eq!(p.tags.len(), 2);
    assert_eq!(p.tags.get("Event").unwrap(), "Test");
    assert_eq!(p.tags.get("Result").unwrap(), "1-0");
    assert_eq!(p.moves, vec!["e4", "e5", "Nf3"]);
    assert_eq!(p.tags_text, "[Event \"Test\"]\n[Result \"1-0\"]\n");
    assert_eq!(p.moves_text, "1. e4 e5 2. Nf3 1-0\n");
    assert_eq!(p.moves_fingerprint, moves_fingerprint(&p.moves));
    assert!(matches!(out[1], ReadOutcome::Ended));
}

#[test]
fn sentinel_mismatch_is_rejected() {
    let out = read_all(
        "test.pgn",
        &["[Event \"Test\"]", "[Result \"1-0\"]", "", "1. e4 e5 2. Nf3 0-1"],
    );
    let r = reason(&out[0]);
    assert!(r.contains("1-0"));
    assert!(r.contains("0-1"));
    assert_eq!(r, "result tag (1-0) != result sentinel (0-1)");
    assert!(matches!(out[1], ReadOutcome::Ended));
}

#[test]
fn missing_result_tag_is_rejected() {
    let out = read_all("test.pgn", &["[Event \"Test\"]", "1. e4 e5 2. Nf3 1-0"]);
    assert_eq!(reason(&out[0]), "missing result tag");
    let out = read_all("test.pgn", &["[Event \"Test\"]", "garbage"]);
    assert_eq!(reason(&out[0]), "missing result tag");
}

#[test]
fn count_mismatch_is_rejected() {
    let out = read_all("test.pgn", &["[Result \"1-0\"]", "1. e4 e5 2. Nf3 3. Bb5 1-0"]);
    assert_eq!(
        reason(&out[0]),
        "last move index == 3, but # of moves (white + black) == 4"
    );
    match &out[0] {
        ReadOutcome::BadPgn(b) => {
            assert!(matches!(b.reason, Rejection::CountMismatch(3, 4)));
            assert_eq!(b.line, 3);
            assert_eq!(b.tags_text, "[Result \"1-0\"]\n");
            assert_eq!(b.moves_text, "1. e4 e5 2. Nf3 3. Bb5 1-0\n");
            assert_eq!(
                b.message(),
                "Line 3: invalid pgn: last move index == 3, but # of moves (white + black) == 4\n[Result \"1-0\"]\n\n1. e4 e5 2. Nf3 3. Bb5 1-0\n\n"
            );
        }
        _ => panic!("not a rejected record"),
    }
    let out = read_all("test.pgn", &["[Result \"1-0\"]", "1. e4 e5 2. Nf3 Nc6 3. Bb5 1-0"]);
    assert_eq!(game(&out[0]).moves.len(), 5);
}

#[test]
fn bad_result_tag_and_bad_movetext() {
    let out = read_all("test.pgn", &["[Result \"2-0\"]", "1. e4 2-0"]);
    assert_eq!(reason(&out[0]), "bad result tag (2-0)");
    let out = read_all("test.pgn", &["[Result \"*\"]", "1. e4 e5 Nf3 *"]);
    assert_eq!(reason(&out[0]), "cannot extract move list");
}

#[test]
fn ended_repeats() {
    let mut reader = Reader::new("x.pgn");
    assert!(matches!(reader.advance(LineEvent::End), Some(ReadOutcome::Ended)));
    for _ in 0..3 {
        assert!(matches!(
            reader.advance(LineEvent::Line("[Event \"x\"]".to_string())),
            Some(ReadOutcome::Ended)
        ));
        assert!(matches!(reader.advance(LineEvent::End), Some(ReadOutcome::Ended)));
    }
    assert!(reader.is_ended());
}

#[test]
fn movetext_at_end_of_stream_is_a_game() {
    let mut reader = Reader::new("x.pgn");
    assert!(reader.advance(LineEvent::Line("[Result \"*\"]".to_string())).is_none());
    assert!(reader.advance(LineEvent::Line("1. d4 *".to_string())).is_none());
    let o = reader.advance(LineEvent::End).unwrap();
    assert_eq!(game(&o).moves, vec!["d4"]);
}

#[test]
fn end_inside_tags_is_an_error() {
    let out = read_all("x.pgn", &["[Event \"x\"]", "[Result \"*\"]"]);
    assert_eq!(out.len(), 1);
    match &out[0] {
        ReadOutcome::Error(e) => {
            assert!(matches!(e.kind, ReadErrorKind::EndedUnexpectedly));
            assert_eq!(e.line, 3);
            assert_eq!(e.message(), "Line 3: Ended unexpectedly.");
        }
        _ => panic!("not an error"),
    }
}

#[test]
fn text_before_tags_is_an_error() {
    let out = read_all("x.pgn", &["", "1. e4 *"]);
    assert_eq!(out.len(), 1);
    match &out[0] {
        ReadOutcome::Error(e) => {
            assert_eq!(e.line, 2);
            assert_eq!(e.message(), "Line 2: Unexpected line: 1. e4 *\n");
        }
        _ => panic!("not an error"),
    }
}

#[test]
fn read_failure_is_an_error() {
    let mut reader = Reader::new("x.pgn");
    assert!(reader.advance(LineEvent::Line("[Result \"*\"]".to_string())).is_none());
    match reader.advance(LineEvent::Failed("disk on fire".to_string())).unwrap() {
        ReadOutcome::Error(e) => assert_eq!(e.message(), "Line 2: disk on fire"),
        _ => panic!("not an error"),
    }
    assert!(reader.is_ended());
}

#[test]
fn empty_stream_ends_cleanly() {
    let out = read_all("x.pgn", &[]);
    assert_eq!(out.len(), 1);
    assert!(matches!(out[0], ReadOutcome::Ended));
    let out = read_all("x.pgn", &["", "   "]);
    assert!(matches!(out[0], ReadOutcome::Ended));
}

#[test]
fn records_are_numbered_in_order() {
    let out = read_all(
        "lichess.2013-01.pgn.bz2",
        &[
            "[Result \"1-0\"]",
            "[White \"a\"]",
            "[White \"b\"]",
            "1. e4 1-0",
            "",
            "[Result \"0-1\"]",
            "1. e4 e5",
            "2. Qh5 0-1",
            "[Result \"1-0\"]",
            "1. d4 0-1",
            "[Result \"*\"]",
            "1. c4 *",
        ],
    );
    assert_eq!(out.len(), 5);
    assert!(matches!(out[4], ReadOutcome::Ended));
    let a = game(&out[0]);
    assert_eq!(a.id, "lichess.1");
    assert_eq!(a.tags.get("White").unwrap(), "b");
    assert_eq!(a.tags.len(), 2);
    let b = game(&out[1]);
    assert_eq!(b.id, "lichess.2");
    assert_eq!(b.moves, vec!["e4", "e5", "Qh5"]);
    assert_eq!(b.moves_text, "1. e4 e5\n2. Qh5 0-1\n");
    assert!(matches!(&out[2], ReadOutcome::BadPgn(_)));
    assert_eq!(game(&out[3]).id, "lichess.4");
}

#[test]
fn tag_lines_must_have_the_exact_shape() {
    let out = read_all("x.pgn", &["[Result \"*\"] trailing", "1. e4 *"]);
    assert!(matches!(out[0], ReadOutcome::Error(_)));
    let out = read_all("x.pgn", &["  [Result   \"*\"]  ", "[Empty \"\"]", "1. e4 *"]);
    let p = game(&out[0]);
    assert_eq!(p.tags.get("Empty").unwrap(), "");
    assert_eq!(p.tags.get("Result").unwrap(), "*");
}

#[test]
fn fingerprint_depends_on_order() {
    let a: Vec<String> = vec!["e4".to_string(), "e5".to_string(), "Nf3".to_string()];
    let b: Vec<String> = vec!["e4".to_string(), "e5".to_string(), "Nf3".to_string()];
    let c: Vec<String> = vec!["Nf3".to_string(), "e5".to_string(), "e4".to_string()];
    assert_eq!(moves_fingerprint(&a), moves_fingerprint(&b));
    assert_ne!(moves_fingerprint(&a), moves_fingerprint(&c));
    let mut h = seahash::SeaHasher::new();
    for m in a.iter() {
        std::hash::Hasher::write(&mut h, m.as_bytes());
    }
    assert_eq!(moves_fingerprint(&a), std::hash::Hasher::finish(&h));
}

#[test]
fn numbers_in_tags() {
    let s = "2210".to_string();
    assert_eq!(parse_to_number(Some(&s)), 2210);
    let s = "-17".to_string();
    assert_eq!(parse_to_number(Some(&s)), -17);
    let s = "?".to_string();
    assert_eq!(parse_to_number(Some(&s)), 0);
    let s = "99999999999".to_string();
    assert_eq!(parse_to_number(Some(&s)), 0);
    assert_eq!(parse_to_number(None), 0);
}

#[test]
fn record_constructors() {
    let p = Pgn::new("games", 12);
    assert_eq!(p.id, "games.12");
    assert!(p.tags.is_empty());
    assert!(p.moves.is_empty());
    let r = RawPgn::new("games", 0);
    assert_eq!(r.id, "games.0");
    assert!(r.moves.is_empty());
}

#[test]
fn later_tag_value_wins() {
    let mut t = Tags::new();
    t.insert("Site".to_string(), "a".to_string());
    t.insert("Date".to_string(), "b".to_string());
    t.insert("Site".to_string(), "c".to_string());
    assert_eq!(t.len(), 2);
    assert_eq!(t.get("Site").unwrap(), "c");
    assert_eq!(t.get("Date").unwrap(), "b");
    assert!(t.get("Event").is_none());
}

#[test]
fn unicode_blank_lines_are_skipped() {
    let out = read_all(
        "x.pgn",
        &["\u{a0}", "[Result \"1-0\"]", "\u{3000}\u{2009}", "1. e4 e5", "\u{a0}", "2. Nf3 1-0", "\u{85}"],
    );
    assert_eq!(out.len(), 2);
    let p = game(&out[0]);
    assert_eq!(p.moves, vec!["e4", "e5", "Nf3"]);
    assert_eq!(p.moves_text, "1. e4 e5\n2. Nf3 1-0\n");
    assert!(matches!(out[1], ReadOutcome::Ended));
}

#[test]
fn unicode_whitespace_is_trimmed_and_separates() {
    let out = read_all("x.pgn", &["\u{a0}[Result\u{2003}\"*\"]\u{a0}", "1.\u{a0}d4\u{3000}*"]);
    let p = game(&out[0]);
    assert_eq!(p.tags.get("Result").unwrap(), "*");
    assert_eq!(p.moves, vec!["d4"]);
}

#[test]
fn whitespace_is_unicode_white_space() {
    for code in 0u32..=0x10FFFF {
        if let Some(c) = char::from_u32(code) {
            assert_eq!(mudfish::text::is_ws_char(c), c.is_whitespace(), "{:?}", c);
        }
    }
}
