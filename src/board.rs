//! The board state: two colour planes, six piece-type planes, side to move,
//! castling rights and en-passant target, with its well-formedness and the
//! per-square view of it.

use crate::bits::{bit, group_bits, has_sq, lemma_empty, lemma_ext};
use crate::lookup_tables::{
    bishop_attacks, black_pawn_mask, king_mask, knight_mask, lemma_leaper_symmetric,
    lemma_slider_symmetric, rook_attacks, white_pawn_mask,
};
use crate::utils::{opponent, Move, MoveType, Piece, PieceColor, PieceType, UndoMove};
use vstd::prelude::*;

verus! {

broadcast use group_bits;

/// Castling-right bits: white king side, white queen side, black king side,
/// black queen side.
pub const WHITE_SHORT: u8 = 1;

pub const WHITE_LONG: u8 = 2;

pub const BLACK_SHORT: u8 = 4;

pub const BLACK_LONG: u8 = 8;

#[derive(Clone, Copy, Debug, PartialEq, Eq, Structural)]
pub struct Board {
    pub white_board: u64,
    pub black_board: u64,
    pub pawns_board: u64,
    pub knights_board: u64,
    pub bishops_board: u64,
    pub rooks_board: u64,
    pub queens_board: u64,
    pub kings_board: u64,
    pub turn: PieceColor,
    pub castling_rights: u8,
    pub en_passant: Option<i8>,
}

pub open spec fn has_right(rights: u8, flag: u8) -> bool {
    rights & flag != 0
}

impl Board {
    pub open spec fn color_plane(&self, c: PieceColor) -> u64 {
        match c {
            PieceColor::White => self.white_board,
            PieceColor::Black => self.black_board,
            PieceColor::NoColor => 0,
        }
    }

    pub open spec fn type_plane(&self, t: PieceType) -> u64 {
        match t {
            PieceType::Pawn => self.pawns_board,
            PieceType::Knight => self.knights_board,
            PieceType::Bishop => self.bishops_board,
            PieceType::Rook => self.rooks_board,
            PieceType::Queen => self.queens_board,
            PieceType::King => self.kings_board,
            PieceType::NoPiece => 0,
        }
    }

    pub open spec fn occupied(&self) -> u64 {
        self.white_board | self.black_board
    }

    pub open spec fn color_at(&self, s: u64) -> PieceColor {
        if has_sq(self.white_board, s) {
            PieceColor::White
        } else if has_sq(self.black_board, s) {
            PieceColor::Black
        } else {
            PieceColor::NoColor
        }
    }

    pub open spec fn type_at(&self, s: u64) -> PieceType {
        if has_sq(self.pawns_board, s) {
            PieceType::Pawn
        } else if has_sq(self.knights_board, s) {
            PieceType::Knight
        } else if has_sq(self.bishops_board, s) {
            PieceType::Bishop
        } else if has_sq(self.rooks_board, s) {
            PieceType::Rook
        } else if has_sq(self.queens_board, s) {
            PieceType::Queen
        } else if has_sq(self.kings_board, s) {
            PieceType::King
        } else {
            PieceType::NoPiece
        }
    }

    pub open spec fn piece_at(&self, s: u64) -> Piece {
        Piece { color: self.color_at(s), piece_type: self.type_at(s) }
    }

    pub open spec fn is_empty(&self, s: u64) -> bool {
        self.piece_at(s) == (Piece { color: PieceColor::NoColor, piece_type: PieceType::NoPiece })
    }

    pub open spec fn holds(&self, s: u64, c: PieceColor, t: PieceType) -> bool {
        self.piece_at(s) == (Piece { color: c, piece_type: t })
    }

    /// Number of type planes that hold square `s`.
    pub open spec fn planes_at(&self, s: u64) -> int {
        (if has_sq(self.pawns_board, s) { 1int } else { 0 }) + (if has_sq(self.knights_board, s) {
            1int
        } else {
            0
        }) + (if has_sq(self.bishops_board, s) { 1int } else { 0 }) + (if has_sq(
            self.rooks_board,
            s,
        ) {
            1int
        } else {
            0
        }) + (if has_sq(self.queens_board, s) { 1int } else { 0 }) + (if has_sq(
            self.kings_board,
            s,
        ) {
            1int
        } else {
            0
        })
    }

    /// No square is both colours, and an occupied square is on exactly one
    /// type plane while an empty one is on none.
    pub open spec fn square_ok(&self, s: u64) -> bool {
        &&& !(has_sq(self.white_board, s) && has_sq(self.black_board, s))
        &&& if has_sq(self.white_board, s) || has_sq(self.black_board, s) {
            self.planes_at(s) == 1
        } else {
            self.planes_at(s) == 0
        }
    }

    /// Every castling right still held has its king and rook at home.
    pub open spec fn castling_ok(&self) -> bool {
        &&& has_right(self.castling_rights, WHITE_SHORT) ==> self.holds(
            4,
            PieceColor::White,
            PieceType::King,
        ) && self.holds(7, PieceColor::White, PieceType::Rook)
        &&& has_right(self.castling_rights, WHITE_LONG) ==> self.holds(
            4,
            PieceColor::White,
            PieceType::King,
        ) && self.holds(0, PieceColor::White, PieceType::Rook)
        &&& has_right(self.castling_rights, BLACK_SHORT) ==> self.holds(
            60,
            PieceColor::Black,
            PieceType::King,
        ) && self.holds(63, PieceColor::Black, PieceType::Rook)
        &&& has_right(self.castling_rights, BLACK_LONG) ==> self.holds(
            60,
            PieceColor::Black,
            PieceType::King,
        ) && self.holds(56, PieceColor::Black, PieceType::Rook)
    }

    /// An en-passant target is the empty square that the opponent's pawn
    /// just crossed with a double push.
    pub open spec fn en_passant_ok(&self) -> bool {
        match self.en_passant {
            None => true,
            Some(e) => {
                let e = e as int;
                if self.turn == PieceColor::White {
                    40 <= e < 48 && self.is_empty(e as u64) && self.holds(
                        (e - 8) as u64,
                        PieceColor::Black,
                        PieceType::Pawn,
                    )
                } else {
                    16 <= e < 24 && self.is_empty(e as u64) && self.holds(
                        (e + 8) as u64,
                        PieceColor::White,
                        PieceType::Pawn,
                    )
                }
            },
        }
    }

    pub open spec fn wf(&self) -> bool {
        &&& forall|s: u64| s < 64 ==> #[trigger] self.square_ok(s)
        &&& self.turn != PieceColor::NoColor
        &&& self.castling_ok()
        &&& self.en_passant_ok()
    }

    /// Squares from which a pawn of colour `c` attacks `s`.
    pub open spec fn pawn_attackers_mask(c: PieceColor, s: u64) -> u64 {
        if c == PieceColor::White {
            black_pawn_mask(s)
        } else {
            white_pawn_mask(s)
        }
    }

    /// Whether a piece of colour `c` attacks square `s`, found by running
    /// each piece's attack pattern backwards from `s`.
    pub open spec fn attacked_by(&self, s: u64, c: PieceColor) -> bool {
        let own = self.color_plane(c);
        let occ = self.occupied();
        ||| knight_mask(s) & self.knights_board & own != 0
        ||| king_mask(s) & self.kings_board & own != 0
        ||| Self::pawn_attackers_mask(c, s) & self.pawns_board & own != 0
        ||| bishop_attacks(s, occ) & (self.bishops_board | self.queens_board) & own != 0
        ||| rook_attacks(s, occ) & (self.rooks_board | self.queens_board) & own != 0
    }

    /// The square of the king of colour `c` (its lowest one); 64 if it has none.
    pub open spec fn king_square(&self, c: PieceColor) -> u64 {
        (self.kings_board & self.color_plane(c)).trailing_zeros() as u64
    }

    pub open spec fn in_check(&self, c: PieceColor) -> bool {
        self.king_square(c) < 64 && self.attacked_by(self.king_square(c), opponent(c))
    }
}

pub open spec fn rook_short_from(c: PieceColor) -> u64 {
    if c == PieceColor::White {
        7
    } else {
        63
    }
}

pub open spec fn rook_short_to(c: PieceColor) -> u64 {
    if c == PieceColor::White {
        5
    } else {
        61
    }
}

pub open spec fn rook_long_from(c: PieceColor) -> u64 {
    if c == PieceColor::White {
        0
    } else {
        56
    }
}

pub open spec fn rook_long_to(c: PieceColor) -> u64 {
    if c == PieceColor::White {
        3
    } else {
        59
    }
}

pub open spec fn king_home(c: PieceColor) -> u64 {
    if c == PieceColor::White {
        4
    } else {
        60
    }
}

/// The square of the pawn taken en passant by a pawn of colour `c` landing
/// on `to`.
pub open spec fn en_passant_victim(c: PieceColor, to: u64) -> u64 {
    if c == PieceColor::White {
        (to - 8) as u64
    } else {
        (to + 8) as u64
    }
}

pub open spec fn promotion_type(k: MoveType) -> PieceType {
    match k {
        MoveType::PawnToKnight => PieceType::Knight,
        MoveType::PawnToBishop => PieceType::Bishop,
        MoveType::PawnToRook => PieceType::Rook,
        MoveType::PawnToQueen => PieceType::Queen,
        _ => PieceType::NoPiece,
    }
}

pub open spec fn is_promotion(k: MoveType) -> bool {
    promotion_type(k) != PieceType::NoPiece
}

/// The castling rights that survive a move touching square `s`.
pub open spec fn rights_kept(s: u64) -> u8 {
    if s == 4 {
        0xFC
    } else if s == 7 {
        0xFE
    } else if s == 0 {
        0xFD
    } else if s == 60 {
        0xF3
    } else if s == 63 {
        0xFB
    } else if s == 56 {
        0xF7
    } else {
        0xFF
    }
}

pub open spec fn with_type_plane(b: Board, t: PieceType, v: u64) -> Board {
    match t {
        PieceType::Pawn => Board { pawns_board: v, ..b },
        PieceType::Knight => Board { knights_board: v, ..b },
        PieceType::Bishop => Board { bishops_board: v, ..b },
        PieceType::Rook => Board { rooks_board: v, ..b },
        PieceType::Queen => Board { queens_board: v, ..b },
        PieceType::King => Board { kings_board: v, ..b },
        PieceType::NoPiece => b,
    }
}

pub open spec fn with_color_plane(b: Board, c: PieceColor, v: u64) -> Board {
    match c {
        PieceColor::White => Board { white_board: v, ..b },
        PieceColor::Black => Board { black_board: v, ..b },
        PieceColor::NoColor => b,
    }
}

/// Removes square `s` from the plane of type `t` and the plane of colour `c`.
pub open spec fn clear_at(b: Board, t: PieceType, c: PieceColor, s: u64) -> Board {
    let b1 = with_type_plane(b, t, b.type_plane(t) & !bit(s));
    with_color_plane(b1, c, b1.color_plane(c) & !bit(s))
}

/// Adds square `s` to the plane of type `t` and the plane of colour `c`.
pub open spec fn put_at(b: Board, t: PieceType, c: PieceColor, s: u64) -> Board {
    let b1 = with_type_plane(b, t, b.type_plane(t) | bit(s));
    with_color_plane(b1, c, b1.color_plane(c) | bit(s))
}

pub open spec fn is_double_push(from: u64, to: u64) -> bool {
    from + 16 == to || to + 16 == from
}

/// The undo record of move `m` on `b`.
pub open spec fn undo_record(b: Board, m: Move) -> UndoMove {
    UndoMove {
        source: m.source,
        destination: m.destination,
        move_type: m.move_type,
        piece_moved: b.type_at(m.source as u64),
        piece_captured: b.type_at(m.destination as u64),
        castling_rights: b.castling_rights,
        turn: b.turn,
        en_passant: b.en_passant,
    }
}

/// The board after move `m`: the captured piece leaves `to`, the moved
/// piece goes from `from` to `to`, then the move kind's side effect (rook
/// of a castling, pawn taken en passant, promotion), the castling rights
/// touched by the move are revoked, the en-passant target is set after a
/// double push, and the side to move flips.
pub open spec fn apply_move(b: Board, m: Move) -> Board {
    let from = m.source as u64;
    let to = m.destination as u64;
    let c = b.turn;
    let e = opponent(c);
    let moved = b.type_at(from);
    let captured = b.type_at(to);
    let b1 = clear_at(b, captured, e, to);
    let b2 = put_at(clear_at(b1, moved, c, from), moved, c, to);
    let b3 = match m.move_type {
        MoveType::Normal => b2,
        MoveType::ShortCastle => put_at(
            clear_at(b2, PieceType::Rook, c, rook_short_from(c)),
            PieceType::Rook,
            c,
            rook_short_to(c),
        ),
        MoveType::LongCastle => put_at(
            clear_at(b2, PieceType::Rook, c, rook_long_from(c)),
            PieceType::Rook,
            c,
            rook_long_to(c),
        ),
        MoveType::EnPassant => clear_at(b2, PieceType::Pawn, e, en_passant_victim(c, to)),
        _ => put_at(
            clear_at(b2, PieceType::Pawn, PieceColor::NoColor, to),
            promotion_type(m.move_type),
            PieceColor::NoColor,
            to,
        ),
    };
    Board {
        castling_rights: b.castling_rights & rights_kept(from) & rights_kept(to),
        en_passant: if moved == PieceType::Pawn && is_double_push(from, to) {
            Some(((from + to) / 2) as i8)
        } else {
            None
        },
        turn: e,
        ..b3
    }
}

/// The board before the move that `r` records, rebuilt from the board after it.
pub open spec fn undo_move(b: Board, r: UndoMove) -> Board {
    let from = r.source as u64;
    let to = r.destination as u64;
    let c = r.turn;
    let e = opponent(c);
    let b1 = match r.move_type {
        MoveType::Normal => b,
        MoveType::ShortCastle => put_at(
            clear_at(b, PieceType::Rook, c, rook_short_to(c)),
            PieceType::Rook,
            c,
            rook_short_from(c),
        ),
        MoveType::LongCastle => put_at(
            clear_at(b, PieceType::Rook, c, rook_long_to(c)),
            PieceType::Rook,
            c,
            rook_long_from(c),
        ),
        MoveType::EnPassant => put_at(b, PieceType::Pawn, e, en_passant_victim(c, to)),
        _ => clear_at(b, promotion_type(r.move_type), PieceColor::NoColor, to),
    };
    let b2 = put_at(clear_at(b1, r.piece_moved, c, to), r.piece_moved, c, from);
    let b3 = if r.piece_captured != PieceType::NoPiece {
        put_at(b2, r.piece_captured, e, to)
    } else {
        b2
    };
    Board { castling_rights: r.castling_rights, en_passant: r.en_passant, turn: c, ..b3 }
}

/// The shape of a pawn move of colour `c` from `from` to `to`: one step
/// forward or diagonally forward, or a double push from the starting rank
/// across an empty square onto an empty square.
pub open spec fn pawn_shape(b: Board, c: PieceColor, from: int, to: int) -> bool {
    if c == PieceColor::White {
        (to == from + 7 || to == from + 8 || to == from + 9) || (to == from + 16 && 8 <= from < 16
            && b.is_empty((from + 8) as u64) && b.is_empty(to as u64))
    } else {
        (to == from - 7 || to == from - 8 || to == from - 9) || (to == from - 16 && 48 <= from < 56
            && b.is_empty((from - 8) as u64) && b.is_empty(to as u64))
    }
}

/// What make and undo need of a move: the mover's piece leaves its own
/// square for one not holding a piece of its own, and each kind's special
/// squares are as the kind requires.
pub open spec fn move_ok(b: Board, m: Move) -> bool {
    let from = m.source as int;
    let to = m.destination as int;
    let c = b.turn;
    let t = b.type_at(from as u64);
    &&& 0 <= from < 64
    &&& 0 <= to < 64
    &&& from != to
    &&& b.color_at(from as u64) == c
    &&& t != PieceType::NoPiece
    &&& b.color_at(to as u64) != c
    &&& t == PieceType::Pawn ==> pawn_shape(b, c, from, to)
    &&& match m.move_type {
        MoveType::Normal => true,
        MoveType::ShortCastle => {
            &&& t == PieceType::King
            &&& from == king_home(c)
            &&& to == from + 2
            &&& b.holds(rook_short_from(c), c, PieceType::Rook)
            &&& b.is_empty(rook_short_to(c))
            &&& b.is_empty(to as u64)
        },
        MoveType::LongCastle => {
            &&& t == PieceType::King
            &&& from == king_home(c)
            &&& to == from - 2
            &&& b.holds(rook_long_from(c), c, PieceType::Rook)
            &&& b.is_empty(rook_long_to(c))
            &&& b.is_empty(to as u64)
            &&& b.is_empty((from - 3) as u64)
        },
        MoveType::EnPassant => {
            &&& t == PieceType::Pawn
            &&& b.is_empty(to as u64)
            &&& if c == PieceColor::White {
                to >= 8
            } else {
                to < 56
            }
            &&& b.holds(en_passant_victim(c, to as u64), opponent(c), PieceType::Pawn)
        },
        _ => t == PieceType::Pawn && (to / 8 == 7 || to / 8 == 0),
    }
}

/// Square `i` of each plane of `r` is that of `b`, except that square `s`
/// leaves the plane of type `t` and the plane of colour `c`.
pub open spec fn cleared_from(r: Board, b: Board, t: PieceType, c: PieceColor, s: u64, i: u64) -> bool {
    &&& has_sq(r.white_board, i) == (has_sq(b.white_board, i) && !(i == s && c == PieceColor::White))
    &&& has_sq(r.black_board, i) == (has_sq(b.black_board, i) && !(i == s && c == PieceColor::Black))
    &&& has_sq(r.pawns_board, i) == (has_sq(b.pawns_board, i) && !(i == s && t == PieceType::Pawn))
    &&& has_sq(r.knights_board, i) == (has_sq(b.knights_board, i) && !(i == s && t
        == PieceType::Knight))
    &&& has_sq(r.bishops_board, i) == (has_sq(b.bishops_board, i) && !(i == s && t
        == PieceType::Bishop))
    &&& has_sq(r.rooks_board, i) == (has_sq(b.rooks_board, i) && !(i == s && t == PieceType::Rook))
    &&& has_sq(r.queens_board, i) == (has_sq(b.queens_board, i) && !(i == s && t
        == PieceType::Queen))
    &&& has_sq(r.kings_board, i) == (has_sq(b.kings_board, i) && !(i == s && t == PieceType::King))
}

/// Square `i` of each plane of `r` is that of `b`, except that square `s`
/// joins the plane of type `t` and the plane of colour `c`.
pub open spec fn put_from(r: Board, b: Board, t: PieceType, c: PieceColor, s: u64, i: u64) -> bool {
    &&& has_sq(r.white_board, i) == (has_sq(b.white_board, i) || (i == s && c == PieceColor::White))
    &&& has_sq(r.black_board, i) == (has_sq(b.black_board, i) || (i == s && c == PieceColor::Black))
    &&& has_sq(r.pawns_board, i) == (has_sq(b.pawns_board, i) || (i == s && t == PieceType::Pawn))
    &&& has_sq(r.knights_board, i) == (has_sq(b.knights_board, i) || (i == s && t
        == PieceType::Knight))
    &&& has_sq(r.bishops_board, i) == (has_sq(b.bishops_board, i) || (i == s && t
        == PieceType::Bishop))
    &&& has_sq(r.rooks_board, i) == (has_sq(b.rooks_board, i) || (i == s && t == PieceType::Rook))
    &&& has_sq(r.queens_board, i) == (has_sq(b.queens_board, i) || (i == s && t
        == PieceType::Queen))
    &&& has_sq(r.kings_board, i) == (has_sq(b.kings_board, i) || (i == s && t == PieceType::King))
}

pub proof fn lemma_clear_at(b: Board, t: PieceType, c: PieceColor, s: u64, i: u64)
    requires
        s < 64,
        i < 64,
    ensures
        cleared_from(clear_at(b, t, c, s), b, t, c, s, i),
        clear_at(b, t, c, s).turn == b.turn,
        clear_at(b, t, c, s).castling_rights == b.castling_rights,
        clear_at(b, t, c, s).en_passant == b.en_passant,
{
}

pub proof fn lemma_put_at(b: Board, t: PieceType, c: PieceColor, s: u64, i: u64)
    requires
        s < 64,
        i < 64,
    ensures
        put_from(put_at(b, t, c, s), b, t, c, s, i),
        put_at(b, t, c, s).turn == b.turn,
        put_at(b, t, c, s).castling_rights == b.castling_rights,
        put_at(b, t, c, s).en_passant == b.en_passant,
{
}

pub open spec fn same_square(u: Board, b: Board, i: u64) -> bool {
    &&& has_sq(u.white_board, i) == has_sq(b.white_board, i)
    &&& has_sq(u.black_board, i) == has_sq(b.black_board, i)
    &&& has_sq(u.pawns_board, i) == has_sq(b.pawns_board, i)
    &&& has_sq(u.knights_board, i) == has_sq(b.knights_board, i)
    &&& has_sq(u.bishops_board, i) == has_sq(b.bishops_board, i)
    &&& has_sq(u.rooks_board, i) == has_sq(b.rooks_board, i)
    &&& has_sq(u.queens_board, i) == has_sq(b.queens_board, i)
    &&& has_sq(u.kings_board, i) == has_sq(b.kings_board, i)
}

proof fn lemma_planes_equal(u: Board, b: Board)
    requires
        forall|i: u64| i < 64 ==> #[trigger] same_square(u, b, i),
        u.turn == b.turn,
        u.castling_rights == b.castling_rights,
        u.en_passant == b.en_passant,
    ensures
        u == b,
{
    assert forall|i: u64| i < 64 implies has_sq(u.white_board, i) == has_sq(b.white_board, i)
        && has_sq(u.black_board, i) == has_sq(b.black_board, i) && has_sq(u.pawns_board, i)
        == has_sq(b.pawns_board, i) && has_sq(u.knights_board, i) == has_sq(b.knights_board, i)
        && has_sq(u.bishops_board, i) == has_sq(b.bishops_board, i) && has_sq(u.rooks_board, i)
        == has_sq(b.rooks_board, i) && has_sq(u.queens_board, i) == has_sq(b.queens_board, i)
        && has_sq(u.kings_board, i) == has_sq(b.kings_board, i) by {
        assert(same_square(u, b, i));
    }
    lemma_ext(u.white_board, b.white_board);
    lemma_ext(u.black_board, b.black_board);
    lemma_ext(u.pawns_board, b.pawns_board);
    lemma_ext(u.knights_board, b.knights_board);
    lemma_ext(u.bishops_board, b.bishops_board);
    lemma_ext(u.rooks_board, b.rooks_board);
    lemma_ext(u.queens_board, b.queens_board);
    lemma_ext(u.kings_board, b.kings_board);
}

proof fn lemma_undo_apply_at(b: Board, m: Move, i: u64)
    requires
        b.wf(),
        move_ok(b, m),
        i < 64,
    ensures
        same_square(undo_move(apply_move(b, m), undo_record(b, m)), b, i),
{
    let from = m.source as u64;
    let to = m.destination as u64;
    let c = b.turn;
    let e = opponent(c);
    let moved = b.type_at(from);
    let captured = b.type_at(to);
    assert(b.square_ok(from));
    assert(b.square_ok(to));
    assert(b.square_ok(i));
    let b1 = clear_at(b, captured, e, to);
    lemma_clear_at(b, captured, e, to, i);
    let b1a = clear_at(b1, moved, c, from);
    lemma_clear_at(b1, moved, c, from, i);
    let b2 = put_at(b1a, moved, c, to);
    lemma_put_at(b1a, moved, c, to, i);
    let a = apply_move(b, m);
    let r = undo_record(b, m);
    let u = undo_move(a, r);
    let ub1 = match r.move_type {
        MoveType::Normal => a,
        MoveType::ShortCastle => put_at(
            clear_at(a, PieceType::Rook, c, rook_short_to(c)),
            PieceType::Rook,
            c,
            rook_short_from(c),
        ),
        MoveType::LongCastle => put_at(
            clear_at(a, PieceType::Rook, c, rook_long_to(c)),
            PieceType::Rook,
            c,
            rook_long_from(c),
        ),
        MoveType::EnPassant => put_at(a, PieceType::Pawn, e, en_passant_victim(c, to)),
        _ => clear_at(a, promotion_type(r.move_type), PieceColor::NoColor, to),
    };
    match m.move_type {
        MoveType::Normal => {
            assert(same_square(a, b2, i));
        },
        MoveType::ShortCastle => {
            let x = clear_at(b2, PieceType::Rook, c, rook_short_from(c));
            lemma_clear_at(b2, PieceType::Rook, c, rook_short_from(c), i);
            lemma_put_at(x, PieceType::Rook, c, rook_short_to(c), i);
            assert(b.square_ok(rook_short_from(c)));
            assert(b.square_ok(rook_short_to(c)));
            let y = clear_at(a, PieceType::Rook, c, rook_short_to(c));
            lemma_clear_at(a, PieceType::Rook, c, rook_short_to(c), i);
            lemma_put_at(y, PieceType::Rook, c, rook_short_from(c), i);
        },
        MoveType::LongCastle => {
            let x = clear_at(b2, PieceType::Rook, c, rook_long_from(c));
            lemma_clear_at(b2, PieceType::Rook, c, rook_long_from(c), i);
            lemma_put_at(x, PieceType::Rook, c, rook_long_to(c), i);
            assert(b.square_ok(rook_long_from(c)));
            assert(b.square_ok(rook_long_to(c)));
            let y = clear_at(a, PieceType::Rook, c, rook_long_to(c));
            lemma_clear_at(a, PieceType::Rook, c, rook_long_to(c), i);
            lemma_put_at(y, PieceType::Rook, c, rook_long_from(c), i);
        },
        MoveType::EnPassant => {
            let v = en_passant_victim(c, to);
            assert(b.square_ok(v));
            lemma_clear_at(b2, PieceType::Pawn, e, v, i);
            lemma_put_at(a, PieceType::Pawn, e, v, i);
        },
        _ => {
            let x = clear_at(b2, PieceType::Pawn, PieceColor::NoColor, to);
            lemma_clear_at(b2, PieceType::Pawn, PieceColor::NoColor, to, i);
            lemma_put_at(x, promotion_type(m.move_type), PieceColor::NoColor, to, i);
            lemma_clear_at(a, promotion_type(r.move_type), PieceColor::NoColor, to, i);
        },
    }
    let ub1a = clear_at(ub1, r.piece_moved, c, to);
    lemma_clear_at(ub1, r.piece_moved, c, to, i);
    let ub2 = put_at(ub1a, r.piece_moved, c, from);
    lemma_put_at(ub1a, r.piece_moved, c, from, i);
    if r.piece_captured != PieceType::NoPiece {
        lemma_put_at(ub2, r.piece_captured, e, to, i);
    }
}

/// Undoing a move with its record restores the board it was made on, bit
/// for bit: planes, side to move, castling rights and en-passant target.
pub proof fn lemma_undo_apply(b: Board, m: Move)
    requires
        b.wf(),
        move_ok(b, m),
    ensures
        undo_move(apply_move(b, m), undo_record(b, m)) == b,
{
    let u = undo_move(apply_move(b, m), undo_record(b, m));
    assert forall|i: u64| i < 64 implies #[trigger] same_square(u, b, i) by {
        lemma_undo_apply_at(b, m, i);
    }
    lemma_planes_equal(u, b);
}

proof fn lemma_rights_kept(r: u8, from: u64, to: u64)
    ensures
        has_right(r & rights_kept(from) & rights_kept(to), WHITE_SHORT) ==> has_right(r, WHITE_SHORT)
            && from != 4 && from != 7 && to != 4 && to != 7,
        has_right(r & rights_kept(from) & rights_kept(to), WHITE_LONG) ==> has_right(r, WHITE_LONG)
            && from != 4 && from != 0 && to != 4 && to != 0,
        has_right(r & rights_kept(from) & rights_kept(to), BLACK_SHORT) ==> has_right(r, BLACK_SHORT)
            && from != 60 && from != 63 && to != 60 && to != 63,
        has_right(r & rights_kept(from) & rights_kept(to), BLACK_LONG) ==> has_right(r, BLACK_LONG)
            && from != 60 && from != 56 && to != 60 && to != 56,
{
    let k1 = rights_kept(from);
    let k2 = rights_kept(to);
    assert(forall|f: u8| #![auto] (r & k1 & k2) & f != 0 ==> r & f != 0 && k1 & f != 0 && k2 & f != 0)
        by (bit_vector);
    assert(0xFCu8 & 1u8 == 0 && 0xFCu8 & 2u8 == 0 && 0xFEu8 & 1u8 == 0 && 0xFDu8 & 2u8 == 0
        && 0xF3u8 & 4u8 == 0 && 0xF3u8 & 8u8 == 0 && 0xFBu8 & 4u8 == 0 && 0xF7u8 & 8u8 == 0)
        by (bit_vector);
}

proof fn lemma_apply_at(b: Board, m: Move, i: u64)
    requires
        b.wf(),
        move_ok(b, m),
        i < 64,
    ensures
        apply_move(b, m).square_ok(i),
        ({
            let from = m.source as u64;
            let to = m.destination as u64;
            let c = b.turn;
            let k = m.move_type;
            (i != from && i != to && !(k == MoveType::EnPassant && i == en_passant_victim(c, to))
                && !(k == MoveType::ShortCastle && (i == rook_short_from(c) || i == rook_short_to(
                c,
            ))) && !(k == MoveType::LongCastle && (i == rook_long_from(c) || i == rook_long_to(c))))
                ==> same_square(apply_move(b, m), b, i)
        }),
        m.move_type == MoveType::Normal && i == m.destination as u64 ==> apply_move(b, m).holds(
            i,
            b.turn,
            b.type_at(m.source as u64),
        ),
{
    let from = m.source as u64;
    let to = m.destination as u64;
    let c = b.turn;
    let e = opponent(c);
    let moved = b.type_at(from);
    let captured = b.type_at(to);
    assert(b.square_ok(from));
    assert(b.square_ok(to));
    assert(b.square_ok(i));
    let b1 = clear_at(b, captured, e, to);
    lemma_clear_at(b, captured, e, to, i);
    let b1a = clear_at(b1, moved, c, from);
    lemma_clear_at(b1, moved, c, from, i);
    let b2 = put_at(b1a, moved, c, to);
    lemma_put_at(b1a, moved, c, to, i);
    let a = apply_move(b, m);
    match m.move_type {
        MoveType::Normal => {
            assert(same_square(a, b2, i));
        },
        MoveType::ShortCastle => {
            let x = clear_at(b2, PieceType::Rook, c, rook_short_from(c));
            lemma_clear_at(b2, PieceType::Rook, c, rook_short_from(c), i);
            lemma_put_at(x, PieceType::Rook, c, rook_short_to(c), i);
            assert(b.square_ok(rook_short_from(c)));
            assert(b.square_ok(rook_short_to(c)));
        },
        MoveType::LongCastle => {
            let x = clear_at(b2, PieceType::Rook, c, rook_long_from(c));
            lemma_clear_at(b2, PieceType::Rook, c, rook_long_from(c), i);
            lemma_put_at(x, PieceType::Rook, c, rook_long_to(c), i);
            assert(b.square_ok(rook_long_from(c)));
            assert(b.square_ok(rook_long_to(c)));
        },
        MoveType::EnPassant => {
            let v = en_passant_victim(c, to);
            assert(b.square_ok(v));
            lemma_clear_at(b2, PieceType::Pawn, e, v, i);
        },
        _ => {
            let x = clear_at(b2, PieceType::Pawn, PieceColor::NoColor, to);
            lemma_clear_at(b2, PieceType::Pawn, PieceColor::NoColor, to, i);
            lemma_put_at(x, promotion_type(m.move_type), PieceColor::NoColor, to, i);
        },
    }
}

/// Making a move that `move_ok` admits on a well-formed board gives a
/// well-formed board.
pub proof fn lemma_apply_wf(b: Board, m: Move)
    requires
        b.wf(),
        move_ok(b, m),
    ensures
        apply_move(b, m).wf(),
{
    let a = apply_move(b, m);
    let from = m.source as u64;
    let to = m.destination as u64;
    let c = b.turn;
    assert forall|i: u64| i < 64 implies #[trigger] a.square_ok(i) by {
        lemma_apply_at(b, m, i);
    }
    lemma_rights_kept(b.castling_rights, from, to);
    if has_right(a.castling_rights, WHITE_SHORT) {
        lemma_apply_at(b, m, 4);
        lemma_apply_at(b, m, 7);
        assert(b.square_ok(4));
        assert(b.square_ok(7));
    }
    if has_right(a.castling_rights, WHITE_LONG) {
        lemma_apply_at(b, m, 4);
        lemma_apply_at(b, m, 0);
        assert(b.square_ok(4));
        assert(b.square_ok(0));
    }
    if has_right(a.castling_rights, BLACK_SHORT) {
        lemma_apply_at(b, m, 60);
        lemma_apply_at(b, m, 63);
        assert(b.square_ok(60));
        assert(b.square_ok(63));
    }
    if has_right(a.castling_rights, BLACK_LONG) {
        lemma_apply_at(b, m, 60);
        lemma_apply_at(b, m, 56);
        assert(b.square_ok(60));
        assert(b.square_ok(56));
    }
    assert(a.castling_ok());
    if a.en_passant.is_some() {
        let mid: u64 = ((from + to) / 2) as u64;
        lemma_apply_at(b, m, mid);
        lemma_apply_at(b, m, to);
        assert(b.square_ok(mid));
    }
    assert(a.en_passant_ok());
}

/// An undo record whose squares lie on the board.
pub open spec fn record_in_range(r: UndoMove) -> bool {
    &&& 0 <= r.source < 64
    &&& 0 <= r.destination < 64
    &&& r.move_type == MoveType::EnPassant ==> if r.turn == PieceColor::White {
        r.destination >= 8
    } else {
        r.destination < 56
    }
}

fn rights_kept_exec(s: u64) -> (r: u8)
    ensures
        r == rights_kept(s),
{
    if s == 4 {
        0xFC
    } else if s == 7 {
        0xFE
    } else if s == 0 {
        0xFD
    } else if s == 60 {
        0xF3
    } else if s == 63 {
        0xFB
    } else if s == 56 {
        0xF7
    } else {
        0xFF
    }
}

fn promotion_type_exec(k: MoveType) -> (r: PieceType)
    ensures
        r == promotion_type(k),
{
    match k {
        MoveType::PawnToKnight => PieceType::Knight,
        MoveType::PawnToBishop => PieceType::Bishop,
        MoveType::PawnToRook => PieceType::Rook,
        MoveType::PawnToQueen => PieceType::Queen,
        _ => PieceType::NoPiece,
    }
}

impl Board {
    pub fn get_type_plane(&self, t: PieceType) -> (r: u64)
        ensures
            r == self.type_plane(t),
    {
        match t {
            PieceType::Pawn => self.pawns_board,
            PieceType::Knight => self.knights_board,
            PieceType::Bishop => self.bishops_board,
            PieceType::Rook => self.rooks_board,
            PieceType::Queen => self.queens_board,
            PieceType::King => self.kings_board,
            PieceType::NoPiece => 0,
        }
    }

    pub fn get_color_plane(&self, c: PieceColor) -> (r: u64)
        ensures
            r == self.color_plane(c),
    {
        match c {
            PieceColor::White => self.white_board,
            PieceColor::Black => self.black_board,
            PieceColor::NoColor => 0,
        }
    }

    fn set_type_plane(&mut self, t: PieceType, v: u64)
        ensures
            *final(self) == with_type_plane(*old(self), t, v),
    {
        match t {
            PieceType::Pawn => self.pawns_board = v,
            PieceType::Knight => self.knights_board = v,
            PieceType::Bishop => self.bishops_board = v,
            PieceType::Rook => self.rooks_board = v,
            PieceType::Queen => self.queens_board = v,
            PieceType::King => self.kings_board = v,
            PieceType::NoPiece => {},
        }
    }

    fn set_color_plane(&mut self, c: PieceColor, v: u64)
        ensures
            *final(self) == with_color_plane(*old(self), c, v),
    {
        match c {
            PieceColor::White => self.white_board = v,
            PieceColor::Black => self.black_board = v,
            PieceColor::NoColor => {},
        }
    }

    pub fn clear_square(&mut self, t: PieceType, c: PieceColor, s: u64)
        requires
            s < 64,
        ensures
            *final(self) == clear_at(*old(self), t, c, s),
    {
        let v = self.get_type_plane(t) & !(1u64 << s);
        self.set_type_plane(t, v);
        let w = self.get_color_plane(c) & !(1u64 << s);
        self.set_color_plane(c, w);
    }

    pub fn put_square(&mut self, t: PieceType, c: PieceColor, s: u64)
        requires
            s < 64,
        ensures
            *final(self) == put_at(*old(self), t, c, s),
    {
        let v = self.get_type_plane(t) | (1u64 << s);
        self.set_type_plane(t, v);
        let w = self.get_color_plane(c) | (1u64 << s);
        self.set_color_plane(c, w);
    }

    pub fn color_at_exec(&self, s: u64) -> (r: PieceColor)
        requires
            s < 64,
        ensures
            r == self.color_at(s),
    {
        if (self.white_board >> s) & 1 == 1 {
            PieceColor::White
        } else if (self.black_board >> s) & 1 == 1 {
            PieceColor::Black
        } else {
            PieceColor::NoColor
        }
    }

    pub fn type_at_exec(&self, s: u64) -> (r: PieceType)
        requires
            s < 64,
        ensures
            r == self.type_at(s),
    {
        if (self.pawns_board >> s) & 1 == 1 {
            PieceType::Pawn
        } else if (self.knights_board >> s) & 1 == 1 {
            PieceType::Knight
        } else if (self.bishops_board >> s) & 1 == 1 {
            PieceType::Bishop
        } else if (self.rooks_board >> s) & 1 == 1 {
            PieceType::Rook
        } else if (self.queens_board >> s) & 1 == 1 {
            PieceType::Queen
        } else if (self.kings_board >> s) & 1 == 1 {
            PieceType::King
        } else {
            PieceType::NoPiece
        }
    }

    /// Plays `m` on the board, following `apply_move`.
    pub fn apply(&mut self, m: &Move)
        requires
            old(self).wf(),
            move_ok(*old(self), *m),
        ensures
            *final(self) == apply_move(*old(self), *m),
            final(self).wf(),
    {
        let moved = self.type_at_exec(m.source as u64);
        let captured = self.type_at_exec(m.destination as u64);
        self.apply_typed(m, moved, captured);
    }

    /// Plays `m`, given the types of the pieces on its two squares.
    pub fn apply_typed(&mut self, m: &Move, moved: PieceType, captured: PieceType)
        requires
            old(self).wf(),
            move_ok(*old(self), *m),
            moved == old(self).type_at(m.source as u64),
            captured == old(self).type_at(m.destination as u64),
        ensures
            *final(self) == apply_move(*old(self), *m),
            final(self).wf(),
    {
        proof {
            lemma_apply_wf(*self, *m);
        }
        let from = m.source as u64;
        let to = m.destination as u64;
        let c = self.turn;
        let e = c.opponent();
        let rights = self.castling_rights;
        self.clear_square(captured, e, to);
        self.clear_square(moved, c, from);
        self.put_square(moved, c, to);
        match m.move_type {
            MoveType::Normal => {},
            MoveType::ShortCastle => {
                let (rf, rt) = if c == PieceColor::White {
                    (7u64, 5u64)
                } else {
                    (63u64, 61u64)
                };
                self.clear_square(PieceType::Rook, c, rf);
                self.put_square(PieceType::Rook, c, rt);
            },
            MoveType::LongCastle => {
                let (rf, rt) = if c == PieceColor::White {
                    (0u64, 3u64)
                } else {
                    (56u64, 59u64)
                };
                self.clear_square(PieceType::Rook, c, rf);
                self.put_square(PieceType::Rook, c, rt);
            },
            MoveType::EnPassant => {
                let v = if c == PieceColor::White {
                    to - 8
                } else {
                    to + 8
                };
                self.clear_square(PieceType::Pawn, e, v);
            },
            _ => {
                self.clear_square(PieceType::Pawn, PieceColor::NoColor, to);
                self.put_square(promotion_type_exec(m.move_type), PieceColor::NoColor, to);
            },
        }
        self.castling_rights = rights & rights_kept_exec(from) & rights_kept_exec(to);
        self.en_passant =
            if moved == PieceType::Pawn && (from + 16 == to || to + 16 == from) {
            Some(((from + to) / 2) as i8)
        } else {
            None
        };
        self.turn = e;
    }

    /// Takes back the move that `r` records, following `undo_move`.
    pub fn unapply(&mut self, r: &UndoMove)
        requires
            record_in_range(*r),
        ensures
            *final(self) == undo_move(*old(self), *r),
    {
        let from = r.source as u64;
        let to = r.destination as u64;
        let c = r.turn;
        let e = c.opponent();
        match r.move_type {
            MoveType::Normal => {},
            MoveType::ShortCastle => {
                let (rf, rt) = if c == PieceColor::White {
                    (7u64, 5u64)
                } else {
                    (63u64, 61u64)
                };
                self.clear_square(PieceType::Rook, c, rt);
                self.put_square(PieceType::Rook, c, rf);
            },
            MoveType::LongCastle => {
                let (rf, rt) = if c == PieceColor::White {
                    (0u64, 3u64)
                } else {
                    (56u64, 59u64)
                };
                self.clear_square(PieceType::Rook, c, rt);
                self.put_square(PieceType::Rook, c, rf);
            },
            MoveType::EnPassant => {
                let v = if c == PieceColor::White {
                    to - 8
                } else {
                    to + 8
                };
                self.put_square(PieceType::Pawn, e, v);
            },
            _ => {
                self.clear_square(promotion_type_exec(r.move_type), PieceColor::NoColor, to);
            },
        }
        self.clear_square(r.piece_moved, c, to);
        self.put_square(r.piece_moved, c, from);
        if r.piece_captured != PieceType::NoPiece {
            self.put_square(r.piece_captured, e, to);
        }
        self.castling_rights = r.castling_rights;
        self.en_passant = r.en_passant;
        self.turn = c;
    }
}

/// On a well-formed board no square is both white and black.
pub proof fn lemma_colors_disjoint(b: Board)
    requires
        b.wf(),
    ensures
        b.white_board & b.black_board == 0,
{
    assert forall|i: u64| i < 64 implies !has_sq(b.white_board & b.black_board, i) by {
        assert(b.square_ok(i));
    }
    lemma_empty(b.white_board & b.black_board);
}

/// On a well-formed board the six type planes together hold exactly the
/// squares of the two colour planes.
pub proof fn lemma_type_planes_cover(b: Board)
    requires
        b.wf(),
    ensures
        b.pawns_board | b.knights_board | b.bishops_board | b.rooks_board | b.queens_board
            | b.kings_board == b.white_board | b.black_board,
{
    let t = b.pawns_board | b.knights_board | b.bishops_board | b.rooks_board | b.queens_board
        | b.kings_board;
    assert forall|i: u64| i < 64 implies has_sq(t, i) == has_sq(b.white_board | b.black_board, i)
        by {
        assert(b.square_ok(i));
    }
    lemma_ext(t, b.white_board | b.black_board);
}

/// The squares that the piece standing on `s` attacks.
pub open spec fn attacks_from(b: Board, s: u64) -> u64 {
    let occ = b.occupied();
    match b.type_at(s) {
        PieceType::Pawn => if b.color_at(s) == PieceColor::White {
            white_pawn_mask(s)
        } else {
            black_pawn_mask(s)
        },
        PieceType::Knight => knight_mask(s),
        PieceType::Bishop => bishop_attacks(s, occ),
        PieceType::Rook => rook_attacks(s, occ),
        PieceType::Queen => rook_attacks(s, occ) | bishop_attacks(s, occ),
        PieceType::King => king_mask(s),
        PieceType::NoPiece => 0,
    }
}

/// Whether some piece of colour `e` has `t` in its attack set.
pub open spec fn attacked_forward(b: Board, t: u64, e: PieceColor) -> bool {
    exists|s: u64| s < 64 && b.color_at(s) == e && #[trigger] has_sq(attacks_from(b, s), t)
}

proof fn lemma_witness(x: u64) -> (i: u64)
    requires
        x != 0,
    ensures
        i < 64,
        has_sq(x, i),
{
    lemma_empty(x);
    choose|i: u64| i < 64 && has_sq(x, i)
}

/// A piece of colour `e` on `s` that attacks `t` is seen by `attacked_by`.
proof fn lemma_attacker_seen(b: Board, t: u64, e: PieceColor, s: u64)
    requires
        b.wf(),
        t < 64,
        s < 64,
        e != PieceColor::NoColor,
        b.color_at(s) == e,
        has_sq(attacks_from(b, s), t),
    ensures
        b.attacked_by(t, e),
{
    assert(b.square_ok(s));
    let own = b.color_plane(e);
    let occ = b.occupied();
    assert(has_sq(own, s));
    lemma_leaper_symmetric(s, t);
    lemma_leaper_symmetric(t, s);
    lemma_slider_symmetric(true, s, t, occ);
    lemma_slider_symmetric(false, s, t, occ);
    match b.type_at(s) {
        PieceType::Knight => {
            assert(has_sq(knight_mask(t) & b.knights_board & own, s));
        },
        PieceType::King => {
            assert(has_sq(king_mask(t) & b.kings_board & own, s));
        },
        PieceType::Pawn => {
            assert(has_sq(Board::pawn_attackers_mask(e, t) & b.pawns_board & own, s));
        },
        PieceType::Bishop => {
            assert(has_sq(bishop_attacks(t, occ) & (b.bishops_board | b.queens_board) & own, s));
        },
        PieceType::Rook => {
            assert(has_sq(rook_attacks(t, occ) & (b.rooks_board | b.queens_board) & own, s));
        },
        PieceType::Queen => {
            if has_sq(rook_attacks(s, occ), t) {
                assert(has_sq(rook_attacks(t, occ) & (b.rooks_board | b.queens_board) & own, s));
            } else {
                assert(has_sq(bishop_attacks(t, occ) & (b.bishops_board | b.queens_board) & own, s));
            }
        },
        PieceType::NoPiece => {},
    }
}

/// Square `t` is attacked by colour `e` exactly when some piece of colour
/// `e` has `t` in its attack set.
pub proof fn lemma_attacked_by_iff(b: Board, t: u64, e: PieceColor)
    requires
        b.wf(),
        t < 64,
        e != PieceColor::NoColor,
    ensures
        b.attacked_by(t, e) == attacked_forward(b, t, e),
{
    let own = b.color_plane(e);
    let occ = b.occupied();
    if attacked_forward(b, t, e) {
        let s = choose|s: u64| s < 64 && b.color_at(s) == e && #[trigger] has_sq(attacks_from(b, s), t);
        lemma_attacker_seen(b, t, e, s);
    }
    if b.attacked_by(t, e) {
        let x = if knight_mask(t) & b.knights_board & own != 0 {
            knight_mask(t) & b.knights_board & own
        } else if king_mask(t) & b.kings_board & own != 0 {
            king_mask(t) & b.kings_board & own
        } else if Board::pawn_attackers_mask(e, t) & b.pawns_board & own != 0 {
            Board::pawn_attackers_mask(e, t) & b.pawns_board & own
        } else if bishop_attacks(t, occ) & (b.bishops_board | b.queens_board) & own != 0 {
            bishop_attacks(t, occ) & (b.bishops_board | b.queens_board) & own
        } else {
            rook_attacks(t, occ) & (b.rooks_board | b.queens_board) & own
        };
        let s = lemma_witness(x);
        assert(b.square_ok(s));
        lemma_leaper_symmetric(s, t);
        lemma_leaper_symmetric(t, s);
        lemma_slider_symmetric(true, s, t, occ);
        lemma_slider_symmetric(false, s, t, occ);
        assert(b.color_at(s) == e);
        assert(has_sq(attacks_from(b, s), t));
    }
}

/// A side is in check exactly when some enemy piece has its king's square
/// in its attack set.
pub proof fn lemma_in_check_iff(b: Board, c: PieceColor)
    requires
        b.wf(),
        c != PieceColor::NoColor,
    ensures
        b.in_check(c) == (b.king_square(c) < 64 && attacked_forward(b, b.king_square(c), opponent(c))),
{
    if b.king_square(c) < 64 {
        lemma_attacked_by_iff(b, b.king_square(c), opponent(c));
    }
}

/// The kings of colour `c`.
pub open spec fn kings_of(b: Board, c: PieceColor) -> u64 {
    b.kings_board & b.color_plane(c)
}

/// Where the kings stand after a move: the mover's king follows a king
/// move, and the opponent's king can only disappear from the destination.
pub proof fn lemma_apply_kings_at(b: Board, m: Move, i: u64)
    requires
        b.wf(),
        move_ok(b, m),
        i < 64,
    ensures
        has_sq(kings_of(apply_move(b, m), b.turn), i) == if b.type_at(m.source as u64)
            == PieceType::King {
            i == m.destination as u64 || (has_sq(kings_of(b, b.turn), i) && i != m.source as u64)
        } else {
            has_sq(kings_of(b, b.turn), i)
        },
        has_sq(kings_of(apply_move(b, m), opponent(b.turn)), i) == (has_sq(
            kings_of(b, opponent(b.turn)),
            i,
        ) && i != m.destination as u64),
{
    let from = m.source as u64;
    let to = m.destination as u64;
    let c = b.turn;
    let e = opponent(c);
    let moved = b.type_at(from);
    let captured = b.type_at(to);
    assert(b.square_ok(from));
    assert(b.square_ok(to));
    assert(b.square_ok(i));
    let b1 = clear_at(b, captured, e, to);
    lemma_clear_at(b, captured, e, to, i);
    let b1a = clear_at(b1, moved, c, from);
    lemma_clear_at(b1, moved, c, from, i);
    let b2 = put_at(b1a, moved, c, to);
    lemma_put_at(b1a, moved, c, to, i);
    match m.move_type {
        MoveType::Normal => {},
        MoveType::ShortCastle => {
            let x = clear_at(b2, PieceType::Rook, c, rook_short_from(c));
            lemma_clear_at(b2, PieceType::Rook, c, rook_short_from(c), i);
            lemma_put_at(x, PieceType::Rook, c, rook_short_to(c), i);
        },
        MoveType::LongCastle => {
            let x = clear_at(b2, PieceType::Rook, c, rook_long_from(c));
            lemma_clear_at(b2, PieceType::Rook, c, rook_long_from(c), i);
            lemma_put_at(x, PieceType::Rook, c, rook_long_to(c), i);
        },
        MoveType::EnPassant => {
            let v = en_passant_victim(c, to);
            assert(b.square_ok(v));
            lemma_clear_at(b2, PieceType::Pawn, e, v, i);
        },
        _ => {
            let x = clear_at(b2, PieceType::Pawn, PieceColor::NoColor, to);
            lemma_clear_at(b2, PieceType::Pawn, PieceColor::NoColor, to, i);
            lemma_put_at(x, promotion_type(m.move_type), PieceColor::NoColor, to, i);
        },
    }
}

} // verus!
