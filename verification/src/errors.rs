//! The error taxonomy of the engine and of the surrounding shell.
//!
//! Every error here is local and recoverable: the shell is expected to
//! report it and re-prompt, never to crash. The parse errors are the
//! vocabulary the shell uses when turning text into typed commands; the
//! engine itself only defines them.

use vstd::prelude::*;

verus! {

/// Why a cell query was rejected.
#[derive(Debug, Clone, PartialEq, Eq, Structural)]
pub enum CellErrorKind {
    /// The queried cell is a border sentinel.
    CheckingOutOfBounds,
    OutOfBoundsX,
    OutOfBoundsY,
}

/// Error returned by [`crate::state::GameState::check_cell`].
#[derive(Debug, Clone, PartialEq, Eq, Structural)]
pub struct CheckCellError {
    pub kind: CellErrorKind,
}

impl CellErrorKind {
    /// The message that `__description` returns for this kind.
    pub open spec fn message(self) -> Seq<char> {
        match self {
            CellErrorKind::CheckingOutOfBounds => "attempting to check out of bounds, something's wrong!"@,
            CellErrorKind::OutOfBoundsX => "x value out of bounds"@,
            CellErrorKind::OutOfBoundsY => "y value out of bounds"@,
        }
    }
}

impl CheckCellError {
    /// A short human-readable account of the error.
    pub fn __description(&self) -> (r: &str)
        ensures
            r@ == self.kind.message(),
    {
        match self.kind {
            CellErrorKind::CheckingOutOfBounds => {
                "attempting to check out of bounds, something's wrong!"
            },
            CellErrorKind::OutOfBoundsX => "x value out of bounds",
            CellErrorKind::OutOfBoundsY => "y value out of bounds",
        }
    }
}

/// Why a placement was rejected.
#[derive(Debug, Clone, PartialEq, Eq, Structural)]
pub enum PieceErrorKind {
    OutOfBoundsX,
    OutOfBoundsY,
    PositionOccupied,
    MissingPiece,
}

/// Error returned by [`crate::state::GameState::place_piece`].
#[derive(Debug, Clone, PartialEq, Eq, Structural)]
pub struct PlacePieceError {
    pub kind: PieceErrorKind,
}

impl PieceErrorKind {
    /// The message that `__description` returns for this kind.
    pub open spec fn message(self) -> Seq<char> {
        match self {
            PieceErrorKind::OutOfBoundsX => "x value out of bounds"@,
            PieceErrorKind::OutOfBoundsY => "y value out of bounds"@,
            PieceErrorKind::PositionOccupied => "attempting to place piece at accupied position"@,
            PieceErrorKind::MissingPiece => "attempting to place piece that is not in piece pool"@,
        }
    }
}

impl PlacePieceError {
    /// A short human-readable account of the error.
    pub fn __description(&self) -> (r: &str)
        ensures
            r@ == self.kind.message(),
    {
        match self.kind {
            PieceErrorKind::OutOfBoundsX => "x value out of bounds",
            PieceErrorKind::OutOfBoundsY => "y value out of bounds",
            PieceErrorKind::PositionOccupied => "attempting to place piece at accupied position",
            PieceErrorKind::MissingPiece => "attempting to place piece that is not in piece pool",
        }
    }
}

/// Why a coordinate could not be parsed from text.
#[derive(Debug, Clone, PartialEq, Eq, Structural)]
pub enum CoordinateErrorKind {
    Empty,
    InvalidFormat,
    ValueErrorX,
    ValueErrorY,
}

/// Error the shell reports when coordinate text is malformed.
#[derive(Debug, Clone, PartialEq, Eq, Structural)]
pub struct ParseCoordinateError {
    pub kind: CoordinateErrorKind,
}

impl CoordinateErrorKind {
    /// The message that `__description` returns for this kind.
    pub open spec fn message(self) -> Seq<char> {
        match self {
            CoordinateErrorKind::Empty => "cannot parse coordinate from empty string"@,
            CoordinateErrorKind::InvalidFormat => "invalid format, should be \"x,y\""@,
            CoordinateErrorKind::ValueErrorX => "problem parsing x value"@,
            CoordinateErrorKind::ValueErrorY => "problem parsing y value"@,
        }
    }
}

impl ParseCoordinateError {
    /// A short human-readable account of the error.
    pub fn __description(&self) -> (r: &str)
        ensures
            r@ == self.kind.message(),
    {
        match self.kind {
            CoordinateErrorKind::Empty => "cannot parse coordinate from empty string",
            CoordinateErrorKind::InvalidFormat => "invalid format, should be \"x,y\"",
            CoordinateErrorKind::ValueErrorX => "problem parsing x value",
            CoordinateErrorKind::ValueErrorY => "problem parsing y value",
        }
    }
}

/// Why a size could not be parsed from text.
#[derive(Debug, Clone, PartialEq, Eq, Structural)]
pub enum SizeErrorKind {
    Empty,
    UnknownValue,
}

/// Error the shell reports when size text is malformed.
#[derive(Debug, Clone, PartialEq, Eq, Structural)]
pub struct ParseSizeError {
    pub kind: SizeErrorKind,
}

impl SizeErrorKind {
    /// The message that `__description` returns for this kind.
    pub open spec fn message(self) -> Seq<char> {
        match self {
            SizeErrorKind::Empty => "cannot parse size from empty string"@,
            SizeErrorKind::UnknownValue => "unknown value. Valid sizes are \"s\",\"b\",\"small\", or \"big\""@,
        }
    }
}

impl ParseSizeError {
    /// A short human-readable account of the error.
    pub fn __description(&self) -> (r: &str)
        ensures
            r@ == self.kind.message(),
    {
        match self.kind {
            SizeErrorKind::Empty => "cannot parse size from empty string",
            SizeErrorKind::UnknownValue => {
                "unknown value. Valid sizes are \"s\",\"b\",\"small\", or \"big\""
            },
        }
    }
}

/// Why a whole placement command could not be parsed from text.
#[derive(Debug, Clone, PartialEq, Eq, Structural)]
pub enum PiecePlacementErrorKind {
    Empty,
    InvalidFormat,
    ValueErrorSize(ParseSizeError),
    ValueErrorCoordinate(ParseCoordinateError),
}

/// Error the shell reports when placement text is malformed.
#[derive(Debug, Clone, PartialEq, Eq, Structural)]
pub struct ParsePiecePlacementError {
    pub kind: PiecePlacementErrorKind,
}

impl PiecePlacementErrorKind {
    /// The message that `__description` returns for this kind.
    pub open spec fn message(self) -> Seq<char> {
        match self {
            PiecePlacementErrorKind::Empty => "cannot parse piece placement from empty string"@,
            PiecePlacementErrorKind::InvalidFormat => "invalid format, should be \"size,coordinate\""@,
            PiecePlacementErrorKind::ValueErrorSize(_) => "problem parsing size value"@,
            PiecePlacementErrorKind::ValueErrorCoordinate(_) => "problem parsing coordinate value"@,
        }
    }
}

impl ParsePiecePlacementError {
    /// A short human-readable account of the error.
    pub fn __description(&self) -> (r: &str)
        ensures
            r@ == self.kind.message(),
    {
        match self.kind {
            PiecePlacementErrorKind::Empty => "cannot parse piece placement from empty string",
            PiecePlacementErrorKind::InvalidFormat => {
                "invalid format, should be \"size,coordinate\""
            },
            PiecePlacementErrorKind::ValueErrorSize(_) => "problem parsing size value",
            PiecePlacementErrorKind::ValueErrorCoordinate(_) => "problem parsing coordinate value",
        }
    }
}

} // verus!
