//! The engine's plain data: colours, piece kinds, moves and undo records,
//! and the random draws used to search for magic multipliers.

use rand::Rng;
use vstd::prelude::*;

verus! {

#[derive(Clone, Copy, Debug, PartialEq, Eq, Structural, Hash)]
pub enum PieceColor {
    NoColor,
    White,
    Black,
}

#[derive(Clone, Copy, Debug, PartialEq, Eq, Structural, Hash)]
pub enum PieceType {
    NoPiece,
    Pawn,
    Knight,
    Bishop,
    Rook,
    Queen,
    King,
}

#[derive(Clone, Copy, Debug, PartialEq, Eq, Structural, Hash)]
pub struct Piece {
    pub color: PieceColor,
    pub piece_type: PieceType,
}

#[derive(Clone, Copy, Debug, PartialEq, Eq, Structural, Hash)]
pub enum MoveType {
    Normal,
    ShortCastle,
    LongCastle,
    PawnToKnight,
    PawnToBishop,
    PawnToRook,
    PawnToQueen,
    EnPassant,
}

#[derive(Clone, Copy, Debug, PartialEq, Eq, Structural, Hash)]
pub struct Move {
    pub source: i8,
    pub destination: i8,
    pub move_type: MoveType,
    /// Ordering hint for the search; it has no effect on the move itself.
    pub move_score: i32,
}

#[derive(Clone, Copy, Debug, PartialEq, Eq, Structural, Hash)]
pub struct UndoMove {
    pub source: i8,
    pub destination: i8,
    pub move_type: MoveType,
    pub piece_moved: PieceType,
    pub piece_captured: PieceType,
    pub castling_rights: u8,
    pub turn: PieceColor,
    pub en_passant: Option<i8>,
}

/// White scores positively, Black negatively.
pub open spec fn color_sign(c: PieceColor) -> int {
    match c {
        PieceColor::NoColor => 0,
        PieceColor::White => 1,
        PieceColor::Black => -1,
    }
}

/// The other side; `NoColor` has no opponent.
pub open spec fn opponent(c: PieceColor) -> PieceColor {
    match c {
        PieceColor::NoColor => PieceColor::NoColor,
        PieceColor::White => PieceColor::Black,
        PieceColor::Black => PieceColor::White,
    }
}

/// Material value of a piece kind, in centipawns.
pub open spec fn material_value(t: PieceType) -> int {
    match t {
        PieceType::NoPiece => 0,
        PieceType::Pawn => 100,
        PieceType::Knight => 320,
        PieceType::Bishop => 330,
        PieceType::Rook => 500,
        PieceType::Queen => 900,
        PieceType::King => 20000,
    }
}

impl PieceColor {
    pub fn sign(&self) -> (r: i32)
        ensures
            r == color_sign(*self),
    {
        match self {
            PieceColor::NoColor => 0,
            PieceColor::White => 1,
            PieceColor::Black => -1,
        }
    }

    pub fn opponent(&self) -> (r: PieceColor)
        ensures
            r == opponent(*self),
    {
        match self {
            PieceColor::NoColor => PieceColor::NoColor,
            PieceColor::White => PieceColor::Black,
            PieceColor::Black => PieceColor::White,
        }
    }
}

impl PieceType {
    pub fn value(&self) -> (r: i32)
        ensures
            r == material_value(*self),
    {
        match self {
            PieceType::NoPiece => 0,
            PieceType::Pawn => 100,
            PieceType::Knight => 320,
            PieceType::Bishop => 330,
            PieceType::Rook => 500,
            PieceType::Queen => 900,
            PieceType::King => 20000,
        }
    }
}

/// Relies on rand's `rng().random::<u64>()`: a uniform 64-bit draw from the
/// thread-local generator. Nothing is promised of the value.
#[verifier::external_body]
fn draw_u64() -> (r: u64) {
    rand::rng().random::<u64>()
}

/// A 64-bit value from the low 16 bits of four values, lowest part first.
pub fn assemble_draws(u1: u64, u2: u64, u3: u64, u4: u64) -> (r: u64)
    ensures
        r == (u1 & 0xFFFF) | ((u2 & 0xFFFF) << 16u64) | ((u3 & 0xFFFF) << 32u64) | ((u4
            & 0xFFFF) << 48u64),
{
    (u1 & 0xFFFF) | ((u2 & 0xFFFF) << 16u64) | ((u3 & 0xFFFF) << 32u64) | ((u4 & 0xFFFF) << 48u64)
}

/// A magic candidate from three draws: their intersection, which has few
/// set bits.
pub fn sparse_candidate(a: u64, b: u64, c: u64) -> (r: u64)
    ensures
        r == a & b & c,
{
    a & b & c
}

/// A random 64-bit value assembled from four 16-bit draws.
pub fn random_u64() -> u64 {
    let u1 = draw_u64();
    let u2 = draw_u64();
    let u3 = draw_u64();
    let u4 = draw_u64();
    assemble_draws(u1, u2, u3, u4)
}

/// A random value with few set bits: the intersection of three draws, a
/// good candidate for a magic multiplier.
pub fn random_u64_few_bits() -> u64 {
    let a = random_u64();
    let b = random_u64();
    let c = random_u64();
    sparse_candidate(a, b, c)
}

} // verus!
