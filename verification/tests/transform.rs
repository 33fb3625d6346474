use eolconv::eol::Eol;

fn test(eol: Eol, input: &[u8]) -> Vec<u8> {
    eol.transform_fn(&input.to_vec())
}

#[test]
fn transform_lf() {
    assert_eq!(test(Eol::Lf, b""), b"");
    assert_eq!(test(Eol::Lf, b"abc"), b"abc");
    assert_eq!(test(Eol::Lf, b"\n"), b"\n");
    assert_eq!(test(Eol::Lf, b"\r\n"), b"\n");
    assert_eq!(test(Eol::Lf, b"x\rx\n"), b"x\nx\n");
    assert_eq!(test(Eol::Lf, b"\r\n\r"), b"\n\n");
}

#[test]
fn transform_crlf() {
    assert_eq!(test(Eol::Crlf, b""), b"");
    assert_eq!(test(Eol::Crlf, b"abc"), b"abc");
    assert_eq!(test(Eol::Crlf, b"\n"), b"\r\n");
    assert_eq!(test(Eol::Crlf, b"\r\n"), b"\r\n");
    assert_eq!(test(Eol::Crlf, b"x\rx\n"), b"x\r\nx\r\n");
    assert_eq!(test(Eol::Crlf, b"\r\n\r"), b"\r\n\r\n");
}

#[test]
fn transform_cr() {
    assert_eq!(test(Eol::Cr, b""), b"");
    assert_eq!(test(Eol::Cr, b"abc"), b"abc");
    assert_eq!(test(Eol::Cr, b"\n"), b"\r");
    assert_eq!(test(Eol::Cr, b"\r\n"), b"\r");
    assert_eq!(test(Eol::Cr, b"x\rx\n"), b"x\rx\r");
    assert_eq!(test(Eol::Cr, b"\r\n\r"), b"\r\r");
}

#[test]
fn transform_is_idempotent_on_samples() {
    let samples: Vec<&[u8]> = vec![
        b"",
        b"abc",
        b"\r\n\r",
        b"x\rx\n",
        b"a\nb\r\nc\rd",
        b"\r\r\n\n",
    ];
    for eol in [Eol::Lf, Eol::Crlf, Eol::Cr] {
        for s in &samples {
            let once = test(eol, s);
            let twice = eol.transform_fn(&once);
            assert_eq!(once, twice);
        }
    }
}

#[test]
fn every_spelling_collapses_to_one_target() {
    assert_eq!(test(Eol::Crlf, b"a\nb"), b"a\r\nb");
    assert_eq!(test(Eol::Crlf, b"a\r\nb"), b"a\r\nb");
    assert_eq!(test(Eol::Crlf, b"a\rb"), b"a\r\nb");
    assert_eq!(test(Eol::Lf, b"a\nb"), b"a\nb");
    assert_eq!(test(Eol::Lf, b"a\r\nb"), b"a\nb");
    assert_eq!(test(Eol::Lf, b"a\rb"), b"a\nb");
    assert_eq!(test(Eol::Cr, b"a\nb"), b"a\rb");
    assert_eq!(test(Eol::Cr, b"a\r\nb"), b"a\rb");
    assert_eq!(test(Eol::Cr, b"a\rb"), b"a\rb");
}

#[test]
fn trailing_cr_yields_exactly_one_break() {
    assert_eq!(test(Eol::Lf, b"x\r"), b"x\n");
    assert_eq!(test(Eol::Crlf, b"x\r"), b"x\r\n");
    assert_eq!(test(Eol::Cr, b"x\r"), b"x\r");
    assert_eq!(test(Eol::Crlf, b"\r"), b"\r\n");
}

#[test]
fn other_bytes_pass_through_unchanged() {
    let input: Vec<u8> = (0u8..=255u8).filter(|&b| b != 0x0A && b != 0x0D).collect();
    for eol in [Eol::Lf, Eol::Crlf, Eol::Cr] {
        assert_eq!(eol.transform_fn(&input), input);
    }
}
