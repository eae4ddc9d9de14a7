use trigrid::board::{Coordinate, Size};
use trigrid::errors::{
    CoordinateErrorKind, ParseCoordinateError, ParseSizeError, PiecePlacementErrorKind,
    SizeErrorKind,
};
use trigrid::parse::{parse_coordinate, parse_piece_placement, parse_size, parse_uint};

#[test]
fn parse_size_accepts_all_four_words_in_any_case() {
    assert_eq!(parse_size("s"), Ok(Size::Small));
    assert_eq!(parse_size("S"), Ok(Size::Small));
    assert_eq!(parse_size("small"), Ok(Size::Small));
    assert_eq!(parse_size("SMALL"), Ok(Size::Small));
    assert_eq!(parse_size("Small"), Ok(Size::Small));
    assert_eq!(parse_size("b"), Ok(Size::Big));
    assert_eq!(parse_size("B"), Ok(Size::Big));
    assert_eq!(parse_size("big"), Ok(Size::Big));
    assert_eq!(parse_size("BiG"), Ok(Size::Big));
}

#[test]
fn parse_size_rejects_empty_and_unknown_words() {
    assert_eq!(parse_size(""), Err(ParseSizeError { kind: SizeErrorKind::Empty }));
    assert_eq!(parse_size("x"), Err(ParseSizeError { kind: SizeErrorKind::UnknownValue }));
    assert_eq!(parse_size("smalls"), Err(ParseSizeError { kind: SizeErrorKind::UnknownValue }));
    assert_eq!(parse_size("large"), Err(ParseSizeError { kind: SizeErrorKind::UnknownValue }));
    assert_eq!(parse_size(" s"), Err(ParseSizeError { kind: SizeErrorKind::UnknownValue }));
}

#[test]
fn parse_uint_reads_decimal_with_optional_plus() {
    assert_eq!(parse_uint(b"0"), Some(0));
    assert_eq!(parse_uint(b"42"), Some(42));
    assert_eq!(parse_uint(b"007"), Some(7));
    assert_eq!(parse_uint(b"+3"), Some(3));
    assert_eq!(parse_uint(b""), None);
    assert_eq!(parse_uint(b"+"), None);
    assert_eq!(parse_uint(b"-1"), None);
    assert_eq!(parse_uint(b"4a"), None);
    assert_eq!(parse_uint(b" 4"), None);
    assert_eq!(parse_uint(b"99999999999999999999999999999"), None);
}

#[test]
fn parse_coordinate_splits_at_the_first_comma() {
    assert_eq!(parse_coordinate("3,4"), Ok(Coordinate { x: 3, y: 4 }));
    assert_eq!(parse_coordinate("0,0"), Ok(Coordinate { x: 0, y: 0 }));
    assert_eq!(parse_coordinate("+1,2"), Ok(Coordinate { x: 1, y: 2 }));
}

#[test]
fn parse_coordinate_names_the_failing_component() {
    assert_eq!(
        parse_coordinate(""),
        Err(ParseCoordinateError { kind: CoordinateErrorKind::InvalidFormat })
    );
    assert_eq!(
        parse_coordinate("34"),
        Err(ParseCoordinateError { kind: CoordinateErrorKind::InvalidFormat })
    );
    assert_eq!(
        parse_coordinate("a,4"),
        Err(ParseCoordinateError { kind: CoordinateErrorKind::ValueErrorX })
    );
    assert_eq!(
        parse_coordinate("3,b"),
        Err(ParseCoordinateError { kind: CoordinateErrorKind::ValueErrorY })
    );
    assert_eq!(
        parse_coordinate("3,4,5"),
        Err(ParseCoordinateError { kind: CoordinateErrorKind::ValueErrorY })
    );
    assert_eq!(
        parse_coordinate("99999999999999999999999999999,1"),
        Err(ParseCoordinateError { kind: CoordinateErrorKind::ValueErrorX })
    );
}

#[test]
fn parse_piece_placement_reads_size_then_coordinate() {
    let p = parse_piece_placement("s,1,2").unwrap();
    assert_eq!(p.size, Size::Small);
    assert_eq!(p.coordinate, Coordinate { x: 1, y: 2 });
    let q = parse_piece_placement("BIG,0,5").unwrap();
    assert_eq!(q.size, Size::Big);
    assert_eq!(q.coordinate, Coordinate { x: 0, y: 5 });
}

#[test]
fn parse_piece_placement_carries_the_inner_error_along() {
    assert_eq!(
        parse_piece_placement("").unwrap_err().kind,
        PiecePlacementErrorKind::InvalidFormat
    );
    assert_eq!(
        parse_piece_placement("s12").unwrap_err().kind,
        PiecePlacementErrorKind::InvalidFormat
    );
    assert_eq!(
        parse_piece_placement(",1,2").unwrap_err().kind,
        PiecePlacementErrorKind::ValueErrorSize(ParseSizeError { kind: SizeErrorKind::Empty })
    );
    assert_eq!(
        parse_piece_placement("q,1,2").unwrap_err().kind,
        PiecePlacementErrorKind::ValueErrorSize(
            ParseSizeError { kind: SizeErrorKind::UnknownValue },
        )
    );
    assert_eq!(
        parse_piece_placement("s,x,2").unwrap_err().kind,
        PiecePlacementErrorKind::ValueErrorCoordinate(
            ParseCoordinateError { kind: CoordinateErrorKind::ValueErrorX },
        )
    );
    assert_eq!(
        parse_piece_placement("s,2").unwrap_err().kind,
        PiecePlacementErrorKind::ValueErrorCoordinate(
            ParseCoordinateError { kind: CoordinateErrorKind::InvalidFormat },
        )
    );
}
