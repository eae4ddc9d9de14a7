//! Parsing of the shell's text commands into typed values.
//!
//! A size is "s", "b", "small" or "big" in any ASCII case; a coordinate
//! is "x,y" with unsigned decimal components; a placement is
//! "size,coordinate", split at its first comma. Each parser's result is
//! pinned, byte for byte, by a spec-level counterpart.

use vstd::prelude::*;
use vstd::string::StringSliceAdditionalSpecFns;

use crate::board::{Coordinate, Size};
use crate::errors::{
    CoordinateErrorKind, ParseCoordinateError, ParsePiecePlacementError, ParseSizeError,
    PiecePlacementErrorKind, SizeErrorKind,
};
use crate::place::PiecePlacement;

verus! {

/// An ASCII decimal digit ('0' to '9').
pub open spec fn is_ascii_digit(b: u8) -> bool {
    48 <= b <= 57
}

/// ASCII upper case folded to lower case; every other byte unchanged.
pub open spec fn ascii_lower(b: u8) -> u8 {
    if 65 <= b <= 90 {
        (b + 32) as u8
    } else {
        b
    }
}

/// The byte string folded to ASCII lower case.
pub open spec fn lower_bytes(s: Seq<u8>) -> Seq<u8> {
    s.map_values(|b: u8| ascii_lower(b))
}

/// How many leading bytes of an integer literal are its sign: one for an
/// optional plus ('+'), else none.
pub open spec fn sign_len(s: Seq<u8>) -> int {
    if s.len() > 0 && s[0] == 43 {
        1
    } else {
        0
    }
}

/// The digits of an integer literal: everything after the sign.
pub open spec fn digits_of(s: Seq<u8>) -> Seq<u8> {
    s.subrange(sign_len(s), s.len() as int)
}

/// The shape unsigned decimal text takes: an optional plus sign followed
/// by at least one ASCII digit.
pub open spec fn is_uint_literal(s: Seq<u8>) -> bool {
    digits_of(s).len() > 0 && (forall|i: int|
        0 <= i < digits_of(s).len() ==> is_ascii_digit(#[trigger] digits_of(s)[i]))
}

/// The numeric value of a string of ASCII digits, most significant
/// digit first.
pub open spec fn decimal_value(s: Seq<u8>) -> int
    decreases s.len(),
{
    if s.len() == 0 {
        0
    } else {
        decimal_value(s.drop_last()) * 10 + (s.last() - 48)
    }
}

/// What parsing unsigned decimal text returns: the value of a
/// well-shaped literal that fits in `usize`, nothing otherwise.
pub open spec fn uint_result(s: Seq<u8>) -> Option<usize> {
    if is_uint_literal(s) && decimal_value(digits_of(s)) <= usize::MAX {
        Some(decimal_value(digits_of(s)) as usize)
    } else {
        None
    }
}

/// A digit string's value is never negative.
proof fn lemma_decimal_value_nonneg(s: Seq<u8>)
    requires
        forall|i: int| 0 <= i < s.len() ==> is_ascii_digit(#[trigger] s[i]),
    ensures
        decimal_value(s) >= 0,
    decreases s.len(),
{
    if s.len() > 0 {
        lemma_decimal_value_nonneg(s.drop_last());
    }
}

/// Extending a digit string never shrinks its value.
proof fn lemma_decimal_value_prefix(s: Seq<u8>, i: int)
    requires
        0 <= i <= s.len(),
        forall|j: int| 0 <= j < s.len() ==> is_ascii_digit(#[trigger] s[j]),
    ensures
        decimal_value(s.subrange(0, i)) <= decimal_value(s),
    decreases s.len() - i,
{
    if i == s.len() {
        assert(s.subrange(0, i) =~= s);
    } else {
        lemma_decimal_value_prefix(s, i + 1);
        assert(s.subrange(0, i + 1).drop_last() =~= s.subrange(0, i));
        assert(s.subrange(0, i + 1).last() == s[i]);
        lemma_decimal_value_nonneg(s.subrange(0, i));
    }
}

/// Parse unsigned decimal text: an optional plus sign, then digits, with
/// any value too large for `usize` rejected.
pub fn parse_uint(b: &[u8]) -> (r: Option<usize>)
    ensures
        r == uint_result(b@),
{
    let n: usize = b.len();
    let start: usize = if n > 0 && b[0] == 43 {
        1
    } else {
        0
    };
    proof {
        assert(start as int == sign_len(b@));
        assert(digits_of(b@) =~= b@.subrange(start as int, n as int));
    }
    if start == n {
        return None;
    }
    let mut i: usize = start;
    let mut acc: usize = 0;
    while i < n
        invariant
            start <= i <= n,
            n == b@.len(),
            start as int == sign_len(b@),
            forall|j: int| start <= j < i ==> is_ascii_digit(#[trigger] b@[j]),
            acc == decimal_value(b@.subrange(start as int, i as int)),
        decreases n - i,
    {
        let c = b[i];
        if c < 48 || c > 57 {
            proof {
                assert(digits_of(b@)[i as int - start as int] == b@[i as int]);
            }
            return None;
        }
        let d: usize = (c - 48) as usize;
        proof {
            assert(b@.subrange(start as int, i as int + 1).drop_last() =~= b@.subrange(
                start as int,
                i as int,
            ));
            assert(b@.subrange(start as int, i as int + 1).last() == b@[i as int]);
        }
        if acc > (usize::MAX - d) / 10 {
            proof {
                assert(acc * 10 + d > usize::MAX) by (nonlinear_arith)
                    requires
                        acc > (usize::MAX - d) / 10,
                        0 <= d <= 9,
                ;
                if is_uint_literal(b@) {
                    lemma_decimal_value_prefix(digits_of(b@), i + 1 - start);
                    assert(digits_of(b@).subrange(0, i + 1 - start) =~= b@.subrange(
                        start as int,
                        i as int + 1,
                    ));
                }
            }
            return None;
        }
        proof {
            assert(acc * 10 + d <= usize::MAX) by (nonlinear_arith)
                requires
                    acc <= (usize::MAX - d) / 10,
                    0 <= d <= 9,
            ;
        }
        acc = acc * 10 + d;
        i = i + 1;
    }
    proof {
        assert(b@.subrange(start as int, n as int) =~= digits_of(b@));
    }
    Some(acc)
}

/// The bytes of the word "s".
pub open spec fn word_s() -> Seq<u8> {
    seq![115u8]
}

/// The bytes of the word "small".
pub open spec fn word_small() -> Seq<u8> {
    seq![115u8, 109u8, 97u8, 108u8, 108u8]
}

/// The bytes of the word "b".
pub open spec fn word_b() -> Seq<u8> {
    seq![98u8]
}

/// The bytes of the word "big".
pub open spec fn word_big() -> Seq<u8> {
    seq![98u8, 105u8, 103u8]
}

/// What parsing a size returns: empty text and unknown words are
/// rejected; "s", "small", "b" and "big" are read in any ASCII case.
pub open spec fn size_result(s: Seq<u8>) -> Result<Size, ParseSizeError> {
    if s.len() == 0 {
        Err(ParseSizeError { kind: SizeErrorKind::Empty })
    } else if lower_bytes(s) == word_s() || lower_bytes(s) == word_small() {
        Ok(Size::Small)
    } else if lower_bytes(s) == word_b() || lower_bytes(s) == word_big() {
        Ok(Size::Big)
    } else {
        Err(ParseSizeError { kind: SizeErrorKind::UnknownValue })
    }
}

/// The exec counterpart of [`ascii_lower`].
fn lower_byte(c: u8) -> (r: u8)
    ensures
        r == ascii_lower(c),
{
    if c >= 65 && c <= 90 {
        c + 32
    } else {
        c
    }
}

/// Parse a size word from bytes.
pub fn parse_size_bytes(b: &[u8]) -> (r: Result<Size, ParseSizeError>)
    ensures
        r == size_result(b@),
{
    let n: usize = b.len();
    proof {
        assert(lower_bytes(b@).len() == n);
        assert forall|i: int| 0 <= i < n implies lower_bytes(b@)[i] == ascii_lower(b@[i]) by {}
        assert(word_s().len() == 1 && word_s()[0] == 115);
        assert(word_small().len() == 5 && word_small()[0] == 115 && word_small()[1] == 109
            && word_small()[2] == 97 && word_small()[3] == 108 && word_small()[4] == 108);
        assert(word_b().len() == 1 && word_b()[0] == 98);
        assert(word_big().len() == 3 && word_big()[0] == 98 && word_big()[1] == 105 && word_big()[2]
            == 103);
    }
    if n == 0 {
        return Err(ParseSizeError { kind: SizeErrorKind::Empty });
    }
    if n == 1 && lower_byte(b[0]) == 115 {
        proof {
            assert(lower_bytes(b@) =~= word_s());
        }
        return Ok(Size::Small);
    }
    if n == 5 && lower_byte(b[0]) == 115 && lower_byte(b[1]) == 109 && lower_byte(b[2]) == 97
        && lower_byte(b[3]) == 108 && lower_byte(b[4]) == 108 {
        proof {
            assert(lower_bytes(b@) =~= word_small());
        }
        return Ok(Size::Small);
    }
    if n == 1 && lower_byte(b[0]) == 98 {
        proof {
            assert(lower_bytes(b@) =~= word_b());
        }
        return Ok(Size::Big);
    }
    if n == 3 && lower_byte(b[0]) == 98 && lower_byte(b[1]) == 105 && lower_byte(b[2]) == 103 {
        proof {
            assert(lower_bytes(b@) =~= word_big());
        }
        return Ok(Size::Big);
    }
    proof {
        assert(lower_bytes(b@).len() == n);
        assert(lower_bytes(b@) != word_s());
        assert(lower_bytes(b@) != word_small());
        assert(lower_bytes(b@) != word_b());
        assert(lower_bytes(b@) != word_big());
    }
    Err(ParseSizeError { kind: SizeErrorKind::UnknownValue })
}

/// Whether the byte string holds a comma at all.
pub open spec fn has_comma(s: Seq<u8>) -> bool {
    exists|i: int| 0 <= i < s.len() && s[i] == 44
}

/// Whether position i holds the first comma of the byte string.
pub open spec fn is_first_comma(s: Seq<u8>, i: int) -> bool {
    0 <= i < s.len() && s[i] == 44 && (forall|j: int| 0 <= j < i ==> s[j] != 44)
}

/// What parsing a coordinate returns: the text splits at its first comma
/// into two unsigned decimal components, each rejection named after the
/// component that caused it.
pub open spec fn coordinate_result(s: Seq<u8>) -> Result<Coordinate, ParseCoordinateError> {
    if !has_comma(s) {
        Err(ParseCoordinateError { kind: CoordinateErrorKind::InvalidFormat })
    } else {
        let i = choose|i: int| is_first_comma(s, i);
        match uint_result(s.subrange(0, i)) {
            Option::None => Err(ParseCoordinateError { kind: CoordinateErrorKind::ValueErrorX }),
            Option::Some(x) => match uint_result(s.subrange(i + 1, s.len() as int)) {
                Option::None => Err(
                    ParseCoordinateError { kind: CoordinateErrorKind::ValueErrorY },
                ),
                Option::Some(y) => Ok(Coordinate { x, y }),
            },
        }
    }
}

/// Find the position of the first comma, or the length when there is
/// none.
fn find_comma(b: &[u8]) -> (k: usize)
    ensures
        k <= b@.len(),
        k == b@.len() ==> !has_comma(b@),
        k < b@.len() ==> is_first_comma(b@, k as int),
{
    let n: usize = b.len();
    let mut k: usize = 0;
    while k < n && b[k] != 44
        invariant
            k <= n,
            n == b@.len(),
            forall|j: int| 0 <= j < k ==> b@[j] != 44,
        decreases n - k,
    {
        k = k + 1;
    }
    k
}

/// Parse a coordinate from bytes.
pub fn parse_coordinate_bytes(b: &[u8]) -> (r: Result<Coordinate, ParseCoordinateError>)
    ensures
        r == coordinate_result(b@),
{
    let n: usize = b.len();
    let k = find_comma(b);
    if k == n {
        return Err(ParseCoordinateError { kind: CoordinateErrorKind::InvalidFormat });
    }
    proof {
        assert(is_first_comma(b@, k as int));
        let i0 = choose|i: int| is_first_comma(b@, i);
        assert(i0 == k as int);
    }
    let xs = &b[0..k];
    let ys = &b[(k + 1)..n];
    match parse_uint(xs) {
        Option::None => Err(ParseCoordinateError { kind: CoordinateErrorKind::ValueErrorX }),
        Option::Some(x) => match parse_uint(ys) {
            Option::None => Err(ParseCoordinateError { kind: CoordinateErrorKind::ValueErrorY }),
            Option::Some(y) => Ok(Coordinate { x, y }),
        },
    }
}

/// What parsing a whole placement command returns: the text splits at
/// its first comma into a size word and a coordinate, each inner
/// rejection carried along.
pub open spec fn placement_result(s: Seq<u8>) -> Result<PiecePlacement, ParsePiecePlacementError> {
    if !has_comma(s) {
        Err(ParsePiecePlacementError { kind: PiecePlacementErrorKind::InvalidFormat })
    } else {
        let i = choose|i: int| is_first_comma(s, i);
        match size_result(s.subrange(0, i)) {
            Result::Err(e) => Err(
                ParsePiecePlacementError { kind: PiecePlacementErrorKind::ValueErrorSize(e) },
            ),
            Result::Ok(size) => match coordinate_result(s.subrange(i + 1, s.len() as int)) {
                Result::Err(e) => Err(
                    ParsePiecePlacementError {
                        kind: PiecePlacementErrorKind::ValueErrorCoordinate(e),
                    },
                ),
                Result::Ok(coordinate) => Ok(PiecePlacement { coordinate, size }),
            },
        }
    }
}

/// Parse a placement command from bytes.
pub fn parse_piece_placement_bytes(b: &[u8]) -> (r: Result<
    PiecePlacement,
    ParsePiecePlacementError,
>)
    ensures
        r == placement_result(b@),
{
    let n: usize = b.len();
    let k = find_comma(b);
    if k == n {
        return Err(ParsePiecePlacementError { kind: PiecePlacementErrorKind::InvalidFormat });
    }
    proof {
        assert(is_first_comma(b@, k as int));
        let i0 = choose|i: int| is_first_comma(b@, i);
        assert(i0 == k as int);
    }
    let sz = &b[0..k];
    let rest = &b[(k + 1)..n];
    match parse_size_bytes(sz) {
        Result::Err(e) => Err(
            ParsePiecePlacementError { kind: PiecePlacementErrorKind::ValueErrorSize(e) },
        ),
        Result::Ok(size) => match parse_coordinate_bytes(rest) {
            Result::Err(e) => Err(
                ParsePiecePlacementError { kind: PiecePlacementErrorKind::ValueErrorCoordinate(e) },
            ),
            Result::Ok(coordinate) => Ok(PiecePlacement { coordinate, size }),
        },
    }
}

/// Parse a size word, as the shell reads one.
pub fn parse_size(s: &str) -> (r: Result<Size, ParseSizeError>)
    ensures
        r == size_result(s.spec_bytes()),
{
    parse_size_bytes(s.as_bytes())
}

/// Parse "x,y" coordinate text, as the shell reads it.
pub fn parse_coordinate(s: &str) -> (r: Result<Coordinate, ParseCoordinateError>)
    ensures
        r == coordinate_result(s.spec_bytes()),
{
    parse_coordinate_bytes(s.as_bytes())
}

/// Parse "size,x,y" placement text, as the shell reads it.
pub fn parse_piece_placement(s: &str) -> (r: Result<PiecePlacement, ParsePiecePlacementError>)
    ensures
        r == placement_result(s.spec_bytes()),
{
    parse_piece_placement_bytes(s.as_bytes())
}

} // verus!
