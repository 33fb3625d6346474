use eolconv::eol::{Eol, UnknownEol};

#[test]
fn parses_known_names_in_any_case() {
    assert_eq!(Eol::from_str("lf"), Ok(Eol::Lf));
    assert_eq!(Eol::from_str("LF"), Ok(Eol::Lf));
    assert_eq!(Eol::from_str("Lf"), Ok(Eol::Lf));
    assert_eq!(Eol::from_str("crlf"), Ok(Eol::Crlf));
    assert_eq!(Eol::from_str("CRLF"), Ok(Eol::Crlf));
    assert_eq!(Eol::from_str("CrLf"), Ok(Eol::Crlf));
    assert_eq!(Eol::from_str("cr"), Ok(Eol::Cr));
    assert_eq!(Eol::from_str("CR"), Ok(Eol::Cr));
}

#[test]
fn rejects_unknown_names() {
    assert_eq!(Eol::from_str(""), Err(UnknownEol));
    assert_eq!(Eol::from_str("lfx"), Err(UnknownEol));
    assert_eq!(Eol::from_str("crl"), Err(UnknownEol));
    assert_eq!(Eol::from_str("newline"), Err(UnknownEol));
    assert_eq!(Eol::from_str("l f"), Err(UnknownEol));
}

#[test]
fn names_round_trip() {
    for eol in [Eol::Lf, Eol::Crlf, Eol::Cr] {
        assert_eq!(Eol::from_str(eol.name()), Ok(eol));
    }
    assert_eq!(Eol::Lf.name(), "LF");
    assert_eq!(Eol::Crlf.name(), "CRLF");
    assert_eq!(Eol::Cr.name(), "CR");
}

#[test]
fn target_bytes_spell_the_sequence() {
    assert_eq!(Eol::Lf.target_bytes(), b"\n");
    assert_eq!(Eol::Crlf.target_bytes(), b"\r\n");
    assert_eq!(Eol::Cr.target_bytes(), b"\r");
}
