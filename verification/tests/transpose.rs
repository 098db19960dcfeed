use elvanto_cli::error::CliError;
use elvanto_cli::transpose::{parse, resolve, Request};

#[test]
fn parse_named() {
    assert_eq!(parse("G").unwrap(), Request::Named("G".into()));
    assert_eq!(parse("f#").unwrap(), Request::Named("F#".into()));
    assert_eq!(parse("Bb").unwrap(), Request::Named("Bb".into()));
}

#[test]
fn parse_offset() {
    assert_eq!(parse("+3").unwrap(), Request::Offset(3));
    assert_eq!(parse("-2").unwrap(), Request::Offset(-2));
    assert_eq!(parse("5").unwrap(), Request::Offset(5));
}

#[test]
fn parse_invalid() {
    assert!(matches!(parse("Q"), Err(CliError::Usage(_))));
    assert!(matches!(parse(""), Err(CliError::Usage(_))));
}

#[test]
fn resolve_offset_uses_sharps() {
    let r = resolve(&Request::Offset(2), "G").unwrap();
    assert_eq!(r, "A");
}

#[test]
fn resolve_offset_wraps() {
    let r = resolve(&Request::Offset(13), "C").unwrap();
    assert_eq!(r, "C#");
    let r2 = resolve(&Request::Offset(-1), "C").unwrap();
    assert_eq!(r2, "B");
}

#[test]
fn resolve_offset_uses_flats_when_starting_has_flat() {
    let r = resolve(&Request::Offset(2), "Bb").unwrap();
    assert_eq!(r, "C");
    let r2 = resolve(&Request::Offset(1), "Bb").unwrap();
    assert_eq!(r2, "B");
}

#[test]
fn resolve_named_passes_through() {
    let r = resolve(&Request::Named("F#".into()), "G").unwrap();
    assert_eq!(r, "F#");
}

#[test]
fn offset_and_back_returns_to_start() {
    for start in ["C", "D", "F#", "Ab", "B"] {
        let up = resolve(&Request::Offset(5), start).unwrap();
        let back = resolve(&Request::Offset(-5), &up).unwrap();
        let same = resolve(&Request::Offset(0), start).unwrap();
        assert_eq!(back, same);
    }
}

#[test]
fn twelve_semitones_is_the_same_key() {
    assert_eq!(resolve(&Request::Offset(12), "E").unwrap(), resolve(&Request::Offset(0), "E").unwrap());
    assert_eq!(resolve(&Request::Offset(-24), "Eb").unwrap(), resolve(&Request::Offset(0), "Eb").unwrap());
}

#[test]
fn unknown_starting_key_is_not_found() {
    assert!(matches!(resolve(&Request::Offset(1), "H"), Err(CliError::NotFound(_))));
}

#[test]
fn parse_rejects_bad_offset() {
    assert!(matches!(parse("+x"), Err(CliError::Usage(_))));
}
