use mudfish::movetext::ExtractMove;
use mudfish::san::split_san;

struct Parts {
    m: &'static str,
    d: &'static str,
    x: &'static str,
    t: &'static str,
    p: &'static str,
    c: &'static str,
}

#[test]
fn match_san() {
    let tests = [
        ("e4", Parts { m: "", d: "", x: "", t: "e4", p: "", c: "" }),
        ("Nxe5", Parts { m: "N", d: "", x: "x", t: "e5", p: "", c: "" }),
        ("Rad1+", Parts { m: "R", d: "a", x: "", t: "d1", p: "", c: "+" }),
    ];

    for (text, san) in tests.into_iter() {
        let caps = split_san(text).unwrap();
        assert_eq!(caps.piece, san.m);
        assert_eq!(caps.disambiguation, san.d);
        assert_eq!(caps.capture, san.x);
        assert_eq!(caps.target, san.t);
        assert_eq!(caps.promotion, san.p);
        assert_eq!(caps.check, san.c);
    }
}

#[test]
fn extract_move() {
    let pgn = r#"1. e4 e5 2. Nf3 Nc6 3. Bc4 Bc5 4. c3 Nf6 5. d3 d6 6. Bg5 h6 7. Bh4 Qe7 8. O-O a6
9. b4 Ba7 10. Nbd2 g5 11. Bg3 Nh7 12. a4 h5 13. h4 g4 14. Ne1 Nf8 15. Nc2 Ng6
16. Ne3 Be6 17. b5 Nd8 18. d4 Nxh4 19. dxe5 dxe5 20. Bxe5 O-O 21. Bxe6 fxe6 22.
Bd4 c5 23. bxc6 Nxc6 24. Bxa7 Rxa7 25. Ndc4 Rd8 26. Qb3 Raa8 27. Rfd1 Kh8 28.
Rab1 Rxd1+ 29. Qxd1 Rd8 30. Qb3 Ng6 31. Rb2 Rd7 32. Nb6 Rd8 33. Nbc4 Rd7 34. Nb6
Rd8 35. Nbc4 Rd7 1/2-1/2"#;

    let ex = ExtractMove::new();
    let opt = ex.extract(pgn);
    assert!(opt.is_some());

    let (m, last_index, r) = opt.unwrap();
    assert_eq!(r, "1/2-1/2");
    assert_eq!(m.len(), 35 * 2);
    assert_eq!(last_index, 35);
}

#[test]
fn san_with_promotion_and_mate() {
    let s = split_san("exd8=Q#").unwrap();
    assert_eq!(s.piece, "");
    assert_eq!(s.disambiguation, "e");
    assert_eq!(s.capture, "x");
    assert_eq!(s.target, "d8");
    assert_eq!(s.promotion, "=Q");
    assert_eq!(s.check, "#");
    let s = split_san("R1a3").unwrap();
    assert_eq!(s.piece, "R");
    assert_eq!(s.disambiguation, "1");
    assert_eq!(s.target, "a3");
}

#[test]
fn san_rejects_non_moves() {
    assert!(split_san("").is_none());
    assert!(split_san("e9").is_none());
    assert!(split_san("Xe4").is_none());
    assert!(split_san("O-O").is_none());
    assert!(split_san("e4 ").is_none());
    assert!(split_san("Nbxe4x").is_none());
}

#[test]
fn extract_annotations_comments_and_castling() {
    let ex = ExtractMove::new();
    let (m, n, r) = ex
        .extract("1. e4! {best by test} e5?! 2. O-O-O+ {castles} 1... Nf6 0-1")
        .unwrap();
    assert_eq!(m, vec!["e4", "e5", "O-O-O+", "Nf6"]);
    assert_eq!(n, 2);
    assert_eq!(r, "0-1");
}

#[test]
fn extract_rejects_garbled_movetext() {
    let ex = ExtractMove::new();
    assert!(ex.extract("").is_none());
    assert!(ex.extract("1-0").is_none());
    assert!(ex.extract("1. e4 e5").is_none());
    assert!(ex.extract("1. e4 e5 Nf3 1-0").is_none());
    assert!(ex.extract("1.e4 1-0").is_none());
    assert!(ex.extract("1. e4 1-0 2. e5 0-1").is_none());
    assert!(ex.extract("1. e4 {unclosed 1-0").is_none());
    assert!(ex.extract("1. e4 e5!!! 1-0").is_none());
}

#[test]
fn sentinel_inside_comment_is_not_the_result() {
    let ex = ExtractMove::new();
    assert!(ex.extract("1. e4 {1-0}").is_none());
    let (m, _, r) = ex.extract("1. e4 {resigns: 1-0} e5 *").unwrap();
    assert_eq!(m, vec!["e4", "e5"]);
    assert_eq!(r, "*");
}
