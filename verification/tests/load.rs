use imf::{DecodeError, LoadError};
use imf::{ParseError, Stage};
use imf::{Sides, Tile, IMF};

fn sample() -> IMF {
    let mut g = IMF::new(2, 2, Tile::Int(0));
    g.set(1, 0, 0, Tile::Int(-3)).unwrap();
    g.set(0, 1, 0, Tile::Int(300)).unwrap();
    g
}

#[test]
fn load_takes_each_dialect_for_what_it_is() {
    let g = sample();
    for version in 1..=3u8 {
        let written = g.encode(version).unwrap();
        assert!(IMF::load(&written).unwrap() == g);
    }
}

#[test]
fn load_keeps_directional_cells_from_the_binary_dialect_only() {
    let mut g = sample();
    g.set(1, 1, 0, Tile::Sides(Sides { n: 4, e: 5, s: 6, w: 7 })).unwrap();
    assert!(IMF::load(&g.encode(3).unwrap()).unwrap() == g);
    let mut plain = sample();
    plain.set(1, 1, 0, Tile::Int(4)).unwrap();
    assert!(IMF::load(&g.encode(1).unwrap()).unwrap() == plain);
    assert!(IMF::load(&g.encode(2).unwrap()).unwrap() == plain);
}

#[test]
fn load_reports_the_error_of_the_dialect() {
    assert_eq!(IMF::load(&[3]).err(), Some(LoadError::Binary(DecodeError::Truncated)));
    assert_eq!(
        IMF::load(&[3, 1, 0, 0, 0, 1, 0, 0, 0, 1, 0, 0, 0, 9]).err(),
        Some(LoadError::Binary(DecodeError::UnknownTag))
    );
    assert_eq!(
        IMF::load(b"").err(),
        Some(LoadError::Text(ParseError::GrammarMismatch(Stage::Dimensions)))
    );
    assert_eq!(
        IMF::load(&[2, 1, 0, 0, 0]).err(),
        Some(LoadError::Text(ParseError::InvalidNumber))
    );
    assert_eq!(
        IMF::load(b"[v7]1,1;[1]").err(),
        Some(LoadError::Text(ParseError::MalformedHeader))
    );
    assert_eq!(
        IMF::load(b"[v2]3,2;[1,2,3,4,5]").err(),
        Some(LoadError::Text(ParseError::TooFewNumbers))
    );
    assert_eq!(
        IMF::load(b"[v2]3,2;[1,2,3,4,5,6,7]").unwrap_err().message(),
        "Map: too many numbers"
    );
    assert_eq!(IMF::load(&[3]).unwrap_err().message(), "Binary: stream ends too early");
}
