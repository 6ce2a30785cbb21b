//! Pseudo-legal move generation: destination masks per piece kind, and the
//! move list of a side, square by square in increasing order.

use crate::bits::{bit, clear_lsb, group_bits, has_sq, lemma_lsb, lsb};
use crate::board::{
    king_home, move_ok, rook_long_from, rook_long_to, rook_short_from,
    rook_short_to, Board,
};
use crate::lookup_tables::{
    bishop_attacks, step, black_pawn_mask, king_mask, knight_mask, rook_attacks, slider_lookup,
    white_pawn_mask,
};
use crate::position::Position;
use crate::utils::{opponent, Move, MoveType, Piece, PieceColor, PieceType};
use crate::board::is_promotion;
use vstd::prelude::*;

verus! {

broadcast use group_bits;

/// The en-passant target as a bitboard.
pub open spec fn en_passant_mask(b: Board) -> u64 {
    match b.en_passant {
        Some(e) => bit(e as u64),
        None => 0,
    }
}

/// Destinations of a pawn of colour `c` on `from`: the push onto an empty
/// square, the double push from the starting rank across two empty squares,
/// and the diagonal captures onto an occupied square or the en-passant target.
pub open spec fn pawn_moves_mask(b: Board, from: u64, c: PieceColor) -> u64 {
    let occ = b.occupied();
    if c == PieceColor::White {
        let push = if from < 56 && !has_sq(occ, (from + 8) as u64) {
            bit((from + 8) as u64)
        } else {
            0
        };
        let double = if 8 <= from < 16 && !has_sq(occ, (from + 8) as u64) && !has_sq(
            occ,
            (from + 16) as u64,
        ) {
            bit((from + 16) as u64)
        } else {
            0
        };
        push | (white_pawn_mask(from) & (occ | en_passant_mask(b))) | double
    } else if c == PieceColor::Black {
        let push = if from >= 8 && !has_sq(occ, (from - 8) as u64) {
            bit((from - 8) as u64)
        } else {
            0
        };
        let double = if 48 <= from < 56 && !has_sq(occ, (from - 8) as u64) && !has_sq(
            occ,
            (from - 16) as u64,
        ) {
            bit((from - 16) as u64)
        } else {
            0
        };
        push | (black_pawn_mask(from) & (occ | en_passant_mask(b))) | double
    } else {
        0
    }
}

/// Destinations of `piece` standing on `from`, without the squares of its
/// own colour.
pub open spec fn piece_mask(b: Board, from: u64, piece: Piece) -> u64 {
    let occ = b.occupied();
    let raw = match piece.piece_type {
        PieceType::NoPiece => 0,
        PieceType::Pawn => pawn_moves_mask(b, from, piece.color),
        PieceType::Knight => knight_mask(from),
        PieceType::Bishop => bishop_attacks(from, occ),
        PieceType::Rook => rook_attacks(from, occ),
        PieceType::Queen => rook_attacks(from, occ) | bishop_attacks(from, occ),
        PieceType::King => king_mask(from),
    };
    if piece.color == PieceColor::NoColor {
        0
    } else {
        raw & !b.color_plane(piece.color)
    }
}

pub open spec fn mv(from: u64, to: u64, k: MoveType) -> Move {
    Move { source: from as i8, destination: to as i8, move_type: k, move_score: 0 }
}

/// The moves of a piece of type `t` from `from` to `to`: an en-passant
/// capture, the four promotions on the last rank, or one normal move.
pub open spec fn moves_to(b: Board, from: u64, t: PieceType, to: u64) -> Seq<Move> {
    if t == PieceType::Pawn && b.en_passant == Some(to as i8) {
        seq![mv(from, to, MoveType::EnPassant)]
    } else if t == PieceType::Pawn && (to / 8 == 0 || to / 8 == 7) {
        seq![
            mv(from, to, MoveType::PawnToKnight),
            mv(from, to, MoveType::PawnToBishop),
            mv(from, to, MoveType::PawnToRook),
            mv(from, to, MoveType::PawnToQueen),
        ]
    } else {
        seq![mv(from, to, MoveType::Normal)]
    }
}

/// The moves to the squares of `mask` from square `i` upwards.
pub open spec fn dest_moves(b: Board, from: u64, t: PieceType, mask: u64, i: u64) -> Seq<Move>
    decreases 64 - i,
{
    if i >= 64 {
        seq![]
    } else {
        (if has_sq(mask, i) {
            moves_to(b, from, t, i)
        } else {
            seq![]
        }) + dest_moves(b, from, t, mask, (i + 1) as u64)
    }
}

/// The castling moves of colour `c`, made by its king from its home square.
pub open spec fn castle_moves(b: Board, c: PieceColor, from: u64) -> Seq<Move> {
    if b.type_at(from) == PieceType::King && from == king_home(c) {
        (if b.can_castle_short(c) {
            seq![mv(from, (from + 2) as u64, MoveType::ShortCastle)]
        } else {
            seq![]
        }) + (if b.can_castle_long(c) {
            seq![mv(from, (from - 2) as u64, MoveType::LongCastle)]
        } else {
            seq![]
        })
    } else {
        seq![]
    }
}

pub open spec fn piece_moves(b: Board, c: PieceColor, from: u64) -> Seq<Move> {
    dest_moves(b, from, b.type_at(from), piece_mask(b, from, b.piece_at(from)), 0) + castle_moves(
        b,
        c,
        from,
    )
}

/// The moves of the pieces on the squares of `own` from square `i` upwards.
pub open spec fn moves_from(b: Board, c: PieceColor, own: u64, i: u64) -> Seq<Move>
    decreases 64 - i,
{
    if i >= 64 {
        seq![]
    } else {
        (if has_sq(own, i) {
            piece_moves(b, c, i)
        } else {
            seq![]
        }) + moves_from(b, c, own, (i + 1) as u64)
    }
}

/// The pseudo-legal moves of colour `c`, in generation order.
pub open spec fn pseudo_legal_moves(b: Board, c: PieceColor) -> Seq<Move> {
    moves_from(b, c, b.color_plane(c), 0)
}

/// Rook destinations from `source` for the occupancy `board` (own pieces included).
pub fn generate_move_mask_for_rook(position: &Position, board: &u64, source: &i8) -> (r: u64)
    requires
        position.wf(),
        0 <= *source < 64,
    ensures
        r == rook_attacks(*source as u64, *board),
{
    slider_lookup(&position.tables.rook, true, *source as u64, *board)
}

/// Bishop destinations from `source` for the occupancy `board` (own pieces included).
pub fn generate_move_mask_for_bishop(position: &Position, board: &u64, source: &i8) -> (r: u64)
    requires
        position.wf(),
        0 <= *source < 64,
    ensures
        r == bishop_attacks(*source as u64, *board),
{
    slider_lookup(&position.tables.bishop, false, *source as u64, *board)
}

/// Pawn destinations from `source` for a pawn of `color`.
pub fn generate_move_mask_for_pawn(position: &Position, source: &i8, color: &PieceColor) -> (r: u64)
    requires
        position.wf(),
        0 <= *source < 64,
    ensures
        r == pawn_moves_mask(position.board, *source as u64, *color),
{
    let b = &position.board;
    let from = *source as u64;
    let occ = b.white_board | b.black_board;
    let ep: u64 = match b.en_passant {
        Some(e) => 1u64 << (e as u64),
        None => 0,
    };
    match color {
        PieceColor::White => {
            let push = if from < 56 && (occ >> (from + 8)) & 1 != 1 {
                1u64 << (from + 8)
            } else {
                0
            };
            let double = if 8 <= from && from < 16 && (occ >> (from + 8)) & 1 != 1 && (occ >> (
            from + 16)) & 1 != 1 {
                1u64 << (from + 16)
            } else {
                0
            };
            push | (position.tables.white_pawn_attacks[from as usize] & (occ | ep)) | double
        },
        PieceColor::Black => {
            let push = if from >= 8 && (occ >> (from - 8)) & 1 != 1 {
                1u64 << (from - 8)
            } else {
                0
            };
            let double = if 48 <= from && from < 56 && (occ >> (from - 8)) & 1 != 1 && (occ >> (
            from - 16)) & 1 != 1 {
                1u64 << (from - 16)
            } else {
                0
            };
            push | (position.tables.black_pawn_attacks[from as usize] & (occ | ep)) | double
        },
        PieceColor::NoColor => 0,
    }
}

/// Destinations of `piece` on `source`, without the squares of its own colour.
pub fn generate_mask_moves(position: &Position, source: &i8, piece: &Piece) -> (r: u64)
    requires
        position.wf(),
        0 <= *source < 64,
    ensures
        r == piece_mask(position.board, *source as u64, *piece),
{
    let b = &position.board;
    let from = *source as u64;
    let occ = b.white_board | b.black_board;
    let raw: u64 = match piece.piece_type {
        PieceType::NoPiece => 0,
        PieceType::Pawn => generate_move_mask_for_pawn(position, source, &piece.color),
        PieceType::Knight => position.tables.knight_attacks[from as usize],
        PieceType::Bishop => generate_move_mask_for_bishop(position, &occ, source),
        PieceType::Rook => generate_move_mask_for_rook(position, &occ, source),
        PieceType::Queen => generate_move_mask_for_rook(position, &occ, source)
            | generate_move_mask_for_bishop(position, &occ, source),
        PieceType::King => position.tables.king_attacks[from as usize],
    };
    match piece.color {
        PieceColor::NoColor => 0,
        PieceColor::White => raw & !b.white_board,
        PieceColor::Black => raw & !b.black_board,
    }
}

proof fn lemma_dest_moves_skip(b: Board, from: u64, t: PieceType, mask: u64, i: u64, k: u64)
    requires
        i <= k <= 64,
        forall|j: u64| i <= j < k ==> !has_sq(mask, j),
    ensures
        dest_moves(b, from, t, mask, i) == dest_moves(b, from, t, mask, k),
    decreases k - i,
{
    if i < k {
        lemma_dest_moves_skip(b, from, t, mask, (i + 1) as u64, k);
        assert(dest_moves(b, from, t, mask, i) =~= dest_moves(b, from, t, mask, (i + 1) as u64));
    }
}

proof fn lemma_dest_moves_agree(b: Board, from: u64, t: PieceType, x: u64, y: u64, i: u64)
    requires
        i <= 64,
        forall|j: u64| i <= j < 64 ==> has_sq(x, j) == has_sq(y, j),
    ensures
        dest_moves(b, from, t, x, i) == dest_moves(b, from, t, y, i),
    decreases 64 - i,
{
    if i < 64 {
        lemma_dest_moves_agree(b, from, t, x, y, (i + 1) as u64);
    }
}

/// Moves to a mask's squares are the moves to its lowest square followed by
/// the moves to the others.
proof fn lemma_dest_moves_lsb(b: Board, from: u64, t: PieceType, x: u64)
    requires
        x != 0,
    ensures
        dest_moves(b, from, t, x, 0) == moves_to(b, from, t, lsb(x)) + dest_moves(
            b,
            from,
            t,
            clear_lsb(x),
            0,
        ),
{
    lemma_lsb(x);
    let l = lsb(x);
    let y = clear_lsb(x);
    lemma_dest_moves_skip(b, from, t, x, 0, l);
    lemma_dest_moves_agree(b, from, t, x, y, (l + 1) as u64);
    lemma_dest_moves_skip(b, from, t, y, 0, (l + 1) as u64);
}

proof fn lemma_moves_from_skip(b: Board, c: PieceColor, own: u64, i: u64, k: u64)
    requires
        i <= k <= 64,
        forall|j: u64| i <= j < k ==> !has_sq(own, j),
    ensures
        moves_from(b, c, own, i) == moves_from(b, c, own, k),
    decreases k - i,
{
    if i < k {
        lemma_moves_from_skip(b, c, own, (i + 1) as u64, k);
        assert(moves_from(b, c, own, i) =~= moves_from(b, c, own, (i + 1) as u64));
    }
}

proof fn lemma_moves_from_agree(b: Board, c: PieceColor, x: u64, y: u64, i: u64)
    requires
        i <= 64,
        forall|j: u64| i <= j < 64 ==> has_sq(x, j) == has_sq(y, j),
    ensures
        moves_from(b, c, x, i) == moves_from(b, c, y, i),
    decreases 64 - i,
{
    if i < 64 {
        lemma_moves_from_agree(b, c, x, y, (i + 1) as u64);
    }
}

proof fn lemma_moves_from_lsb(b: Board, c: PieceColor, x: u64)
    requires
        x != 0,
    ensures
        moves_from(b, c, x, 0) == piece_moves(b, c, lsb(x)) + moves_from(b, c, clear_lsb(x), 0),
{
    lemma_lsb(x);
    let l = lsb(x);
    let y = clear_lsb(x);
    lemma_moves_from_skip(b, c, x, 0, l);
    lemma_moves_from_agree(b, c, x, y, (l + 1) as u64);
    lemma_moves_from_skip(b, c, y, 0, (l + 1) as u64);
}

fn push_moves_to(b: &Board, from: u64, t: PieceType, to: u64, moves: &mut Vec<Move>)
    requires
        from < 64,
        to < 64,
    ensures
        final(moves)@ == old(moves)@ + moves_to(*b, from, t, to),
{
    let source = from as i8;
    let destination = to as i8;
    if t == PieceType::Pawn && b.en_passant == Some(destination) {
        moves.push(Move { source, destination, move_type: MoveType::EnPassant, move_score: 0 });
    } else if t == PieceType::Pawn && (to / 8 == 0 || to / 8 == 7) {
        moves.push(Move { source, destination, move_type: MoveType::PawnToKnight, move_score: 0 });
        moves.push(Move { source, destination, move_type: MoveType::PawnToBishop, move_score: 0 });
        moves.push(Move { source, destination, move_type: MoveType::PawnToRook, move_score: 0 });
        moves.push(Move { source, destination, move_type: MoveType::PawnToQueen, move_score: 0 });
    } else {
        moves.push(Move { source, destination, move_type: MoveType::Normal, move_score: 0 });
    }
    assert(moves@ =~= old(moves)@ + moves_to(*b, from, t, to));
}

fn push_piece_moves(position: &Position, c: PieceColor, from: u64, moves: &mut Vec<Move>)
    requires
        position.wf(),
        from < 64,
        c != PieceColor::NoColor,
    ensures
        final(moves)@ == old(moves)@ + piece_moves(position.board, c, from),
{
    let b = &position.board;
    let source = from as i8;
    let piece = position.get_piece_on_square(&source);
    let t = piece.piece_type;
    let mask = generate_mask_moves(position, &source, &piece);
    let ghost start = moves@;
    let mut rem = mask;
    while rem != 0
        invariant
            from < 64,
            position.wf(),
            b == &position.board,
            t == b.type_at(from),
            mask == piece_mask(*b, from, b.piece_at(from)),
            moves@ + dest_moves(*b, from, t, rem, 0) == start + dest_moves(*b, from, t, mask, 0),
        decreases rem,
    {
        proof {
            lemma_lsb(rem);
            lemma_dest_moves_lsb(*b, from, t, rem);
        }
        let ghost before = moves@;
        let to = rem.trailing_zeros() as u64;
        push_moves_to(b, from, t, to, moves);
        assert(moves@ + dest_moves(*b, from, t, clear_lsb(rem), 0) =~= before + dest_moves(
            *b,
            from,
            t,
            rem,
            0,
        ));
        rem = rem & (rem - 1);
    }
    proof {
        lemma_dest_moves_skip(*b, from, t, 0, 0, 64);
    }
    assert(moves@ =~= start + dest_moves(*b, from, t, mask, 0));
    if t == PieceType::King && from == (if c == PieceColor::White {
        4
    } else {
        60
    }) {
        let ghost mid = moves@;
        if position.can_short_castle(&c) {
            moves.push(
                Move {
                    source,
                    destination: source + 2,
                    move_type: MoveType::ShortCastle,
                    move_score: 0,
                },
            );
        }
        if position.can_long_castle(&c) {
            moves.push(
                Move {
                    source,
                    destination: source - 2,
                    move_type: MoveType::LongCastle,
                    move_score: 0,
                },
            );
        }
        assert(moves@ =~= mid + castle_moves(*b, c, from));
    }
    assert(moves@ =~= start + piece_moves(*b, c, from));
}

/// The pseudo-legal moves of `color`: for each of its pieces, square by
/// square in increasing order, the moves to each destination in increasing
/// order, then the castling moves of its king.
pub fn generate_pseudo_legal_moves(position: &Position, color: &PieceColor) -> (r: Vec<Move>)
    requires
        position.wf(),
        *color != PieceColor::NoColor,
    ensures
        r@ == pseudo_legal_moves(position.board, *color),
{
    let b = &position.board;
    let own = b.get_color_plane(*color);
    let mut moves: Vec<Move> = Vec::with_capacity(256);
    let mut rem = own;
    while rem != 0
        invariant
            position.wf(),
            b == &position.board,
            *color != PieceColor::NoColor,
            own == b.color_plane(*color),
            moves@ + moves_from(*b, *color, rem, 0) == pseudo_legal_moves(*b, *color),
        decreases rem,
    {
        proof {
            lemma_lsb(rem);
            lemma_moves_from_lsb(*b, *color, rem);
        }
        let ghost before = moves@;
        let from = rem.trailing_zeros() as u64;
        push_piece_moves(position, *color, from, &mut moves);
        assert(moves@ + moves_from(*b, *color, clear_lsb(rem), 0) =~= before + moves_from(
            *b,
            *color,
            rem,
            0,
        ));
        rem = rem & (rem - 1);
    }
    proof {
        lemma_moves_from_skip(*b, *color, 0, 0, 64);
    }
    assert(moves@ =~= pseudo_legal_moves(*b, *color));
    moves
}

/// A castling move crosses no attacked square: the king is not in check,
/// and neither the square it crosses nor the one it lands on is attacked.
pub open spec fn castle_safe(b: Board, m: Move) -> bool {
    let k = king_home(b.turn);
    let e = opponent(b.turn);
    &&& m.move_type == MoveType::ShortCastle ==> !b.attacked_by(k, e) && !b.attacked_by(
        (k + 1) as u64,
        e,
    ) && !b.attacked_by((k + 2) as u64, e)
    &&& m.move_type == MoveType::LongCastle ==> !b.attacked_by(k, e) && !b.attacked_by(
        (k - 1) as u64,
        e,
    ) && !b.attacked_by((k - 2) as u64, e)
}

/// What every generated move satisfies: make and undo accept it, a
/// castling crosses no attacked square, and any other move goes to a square
/// of its piece's destination mask.
pub open spec fn generated_ok(b: Board, m: Move) -> bool {
    &&& move_ok(b, m)
    &&& castle_safe(b, m)
    &&& (m.move_type != MoveType::ShortCastle && m.move_type != MoveType::LongCastle)
        ==> has_sq(piece_mask(b, m.source as u64, b.piece_at(m.source as u64)), m.destination as u64)
}

proof fn lemma_empty_square(b: Board, s: u64)
    requires
        b.wf(),
        s < 64,
        !has_sq(b.occupied(), s),
    ensures
        b.is_empty(s),
{
    assert(b.square_ok(s));
}

proof fn lemma_step_square(sq: u64, dr: int, df: int, i: u64)
    requires
        sq < 64,
        i < 64,
        has_sq(step(sq, dr, df), i),
    ensures
        i == sq + 8 * dr + df,
{
    let r = sq / 8 + dr;
    let f = sq % 8 + df;
    assert(sq == (sq / 8) * 8 + sq % 8);
    if !(0 <= r < 8 && 0 <= f < 8) {
        assert(step(sq, dr, df) == 0);
    }
}

/// Each move to a destination in a piece's mask is one that make and undo accept.
proof fn lemma_moves_to_ok(b: Board, from: u64, to: u64)
    requires
        b.wf(),
        from < 64,
        to < 64,
        b.color_at(from) == b.turn,
        has_sq(piece_mask(b, from, b.piece_at(from)), to),
    ensures
        forall|k: int|
            0 <= k < moves_to(b, from, b.type_at(from), to).len() ==> generated_ok(
                b,
                #[trigger] moves_to(b, from, b.type_at(from), to)[k],
            ),
{
    let c = b.turn;
    let t = b.type_at(from);
    let occ = b.occupied();
    assert(b.square_ok(from));
    assert(b.square_ok(to));
    let own = b.color_plane(c);
    assert(has_sq(own, from));
    assert(!has_sq(own, to));
    if t == PieceType::Pawn {
        let raw = pawn_moves_mask(b, from, c);
        assert(has_sq(raw, to));
        if c == PieceColor::White {
            if has_sq(white_pawn_mask(from) & (occ | en_passant_mask(b)), to) {
                if has_sq(step(from, 1, -1), to) {
                    lemma_step_square(from, 1, -1, to);
                } else {
                    lemma_step_square(from, 1, 1, to);
                }
            } else if to != from + 8 {
                assert(to == from + 16);
                lemma_empty_square(b, (from + 8) as u64);
                lemma_empty_square(b, to);
            }
        } else {
            if has_sq(black_pawn_mask(from) & (occ | en_passant_mask(b)), to) {
                if has_sq(step(from, -1, -1), to) {
                    lemma_step_square(from, -1, -1, to);
                } else {
                    lemma_step_square(from, -1, 1, to);
                }
            } else if to + 8 != from {
                assert(to + 16 == from);
                lemma_empty_square(b, (from - 8) as u64);
                lemma_empty_square(b, to);
            }
        }
        if b.en_passant == Some(to as i8) {
            assert(b.en_passant_ok());
            assert((to as i8) as int == to);
        }
    }
    assert forall|k: int|
        0 <= k < moves_to(b, from, t, to).len() implies generated_ok(
        b,
        #[trigger] moves_to(b, from, t, to)[k],
    ) by {
        let m = moves_to(b, from, t, to)[k];
        assert(m.source as u64 == from && m.destination as u64 == to);
        assert(m.source as int == from as int && m.destination as int == to as int);
    }
}

proof fn lemma_dest_moves_ok(b: Board, from: u64, i: u64)
    requires
        b.wf(),
        from < 64,
        b.color_at(from) == b.turn,
    ensures
        forall|k: int|
            0 <= k < dest_moves(
                b,
                from,
                b.type_at(from),
                piece_mask(b, from, b.piece_at(from)),
                i,
            ).len() ==> generated_ok(
                b,
                #[trigger] dest_moves(
                    b,
                    from,
                    b.type_at(from),
                    piece_mask(b, from, b.piece_at(from)),
                    i,
                )[k],
            ),
    decreases 64 - i,
{
    let mask = piece_mask(b, from, b.piece_at(from));
    let t = b.type_at(from);
    if i < 64 {
        lemma_dest_moves_ok(b, from, (i + 1) as u64);
        if has_sq(mask, i) {
            lemma_moves_to_ok(b, from, i);
        }
        let head = if has_sq(mask, i) {
            moves_to(b, from, t, i)
        } else {
            seq![]
        };
        let tail = dest_moves(b, from, t, mask, (i + 1) as u64);
        assert forall|k: int| 0 <= k < (head + tail).len() implies generated_ok(
            b,
            #[trigger] (head + tail)[k],
        ) by {
            if k >= head.len() {
                assert((head + tail)[k] == tail[k - head.len()]);
            }
        }
    }
}

proof fn lemma_castle_moves_ok(b: Board, from: u64)
    requires
        b.wf(),
        from < 64,
        b.color_at(from) == b.turn,
    ensures
        forall|k: int|
            0 <= k < castle_moves(b, b.turn, from).len() ==> generated_ok(
                b,
                #[trigger] castle_moves(b, b.turn, from)[k],
            ),
{
    let c = b.turn;
    if b.type_at(from) == PieceType::King && from == king_home(c) {
        assert(b.square_ok(from));
        if b.can_castle_short(c) {
            assert(b.square_ok(rook_short_from(c)));
            lemma_empty_square(b, rook_short_to(c));
            lemma_empty_square(b, (from + 2) as u64);
            assert(generated_ok(b, mv(from, (from + 2) as u64, MoveType::ShortCastle)));
        }
        if b.can_castle_long(c) {
            assert(b.square_ok(rook_long_from(c)));
            lemma_empty_square(b, rook_long_to(c));
            lemma_empty_square(b, (from - 2) as u64);
            lemma_empty_square(b, (from - 3) as u64);
            assert(generated_ok(b, mv(from, (from - 2) as u64, MoveType::LongCastle)));
        }
    }
}

proof fn lemma_moves_from_ok(b: Board, i: u64)
    requires
        b.wf(),
    ensures
        forall|k: int|
            0 <= k < moves_from(b, b.turn, b.color_plane(b.turn), i).len() ==> generated_ok(
                b,
                #[trigger] moves_from(b, b.turn, b.color_plane(b.turn), i)[k],
            ),
    decreases 64 - i,
{
    let c = b.turn;
    let own = b.color_plane(c);
    if i < 64 {
        lemma_moves_from_ok(b, (i + 1) as u64);
        let head = if has_sq(own, i) {
            piece_moves(b, c, i)
        } else {
            seq![]
        };
        if has_sq(own, i) {
            assert(b.square_ok(i));
            assert(b.color_at(i) == c);
            lemma_dest_moves_ok(b, i, 0);
            lemma_castle_moves_ok(b, i);
            let d = dest_moves(b, i, b.type_at(i), piece_mask(b, i, b.piece_at(i)), 0);
            let cm = castle_moves(b, c, i);
            assert forall|k: int| 0 <= k < (d + cm).len() implies generated_ok(
                b,
                #[trigger] (d + cm)[k],
            ) by {
                if k >= d.len() {
                    assert((d + cm)[k] == cm[k - d.len()]);
                }
            }
        }
        let tail = moves_from(b, c, own, (i + 1) as u64);
        assert forall|k: int| 0 <= k < (head + tail).len() implies generated_ok(
            b,
            #[trigger] (head + tail)[k],
        ) by {
            if k >= head.len() {
                assert((head + tail)[k] == tail[k - head.len()]);
            }
        }
    }
}

/// Every pseudo-legal move of the side to move is one that make and undo
/// accept, and castles only across squares that are not attacked.
pub proof fn lemma_pseudo_legal_moves_ok(b: Board)
    requires
        b.wf(),
    ensures
        forall|k: int|
            0 <= k < pseudo_legal_moves(b, b.turn).len() ==> generated_ok(
                b,
                #[trigger] pseudo_legal_moves(b, b.turn)[k],
            ),
{
    lemma_moves_from_ok(b, 0);
}

/// A generated castling move is never out of, through or into check.
pub proof fn lemma_castling_avoids_check(b: Board, k: int)
    requires
        b.wf(),
        0 <= k < pseudo_legal_moves(b, b.turn).len(),
    ensures
        castle_safe(b, pseudo_legal_moves(b, b.turn)[k]),
{
    lemma_pseudo_legal_moves_ok(b);
}

/// A pawn reaching the last rank yields exactly the four promotions.
pub proof fn lemma_promotion_moves(b: Board, from: u64, to: u64)
    requires
        b.wf(),
        to < 64,
        to / 8 == 0 || to / 8 == 7,
    ensures
        moves_to(b, from, PieceType::Pawn, to).len() == 4,
        forall|k: int|
            0 <= k < 4 ==> is_promotion(#[trigger] moves_to(b, from, PieceType::Pawn, to)[k].move_type),
        moves_to(b, from, PieceType::Pawn, to) == seq![
            mv(from, to, MoveType::PawnToKnight),
            mv(from, to, MoveType::PawnToBishop),
            mv(from, to, MoveType::PawnToRook),
            mv(from, to, MoveType::PawnToQueen),
        ],
{
    assert(b.en_passant_ok());
    if b.en_passant == Some(to as i8) {
        assert((to as i8) as u64 == to);
    }
}

proof fn lemma_concat_contains(a: Seq<Move>, b: Seq<Move>, x: Move)
    requires
        a.contains(x) || b.contains(x),
    ensures
        (a + b).contains(x),
{
    if a.contains(x) {
        let i = choose|i: int| 0 <= i < a.len() && a[i] == x;
        assert((a + b)[i] == x);
    } else {
        let i = choose|i: int| 0 <= i < b.len() && b[i] == x;
        assert((a + b)[a.len() + i] == x);
    }
}

proof fn lemma_dest_moves_contains(b: Board, from: u64, t: PieceType, mask: u64, i: u64, to: u64, x: Move)
    requires
        i <= to < 64,
        has_sq(mask, to),
        moves_to(b, from, t, to).contains(x),
    ensures
        dest_moves(b, from, t, mask, i).contains(x),
    decreases to - i,
{
    let head = if has_sq(mask, i) {
        moves_to(b, from, t, i)
    } else {
        seq![]
    };
    if i < to {
        lemma_dest_moves_contains(b, from, t, mask, (i + 1) as u64, to, x);
    }
    lemma_concat_contains(head, dest_moves(b, from, t, mask, (i + 1) as u64), x);
}

proof fn lemma_moves_from_contains(b: Board, c: PieceColor, own: u64, i: u64, from: u64, x: Move)
    requires
        i <= from < 64,
        has_sq(own, from),
        piece_moves(b, c, from).contains(x),
    ensures
        moves_from(b, c, own, i).contains(x),
    decreases from - i,
{
    let head = if has_sq(own, i) {
        piece_moves(b, c, i)
    } else {
        seq![]
    };
    if i < from {
        lemma_moves_from_contains(b, c, own, (i + 1) as u64, from, x);
    }
    lemma_concat_contains(head, moves_from(b, c, own, (i + 1) as u64), x);
}

/// When the en-passant target is set and a pawn of the side to move
/// attacks it, the en-passant capture is generated; it is then legal
/// exactly when it leaves the mover's king unattacked.
pub proof fn lemma_en_passant_generated(b: Board, from: u64, e: u64)
    requires
        b.wf(),
        from < 64,
        e < 64,
        b.en_passant == Some(e as i8),
        b.holds(from, b.turn, PieceType::Pawn),
        b.turn == PieceColor::White ==> has_sq(white_pawn_mask(from), e),
        b.turn == PieceColor::Black ==> has_sq(black_pawn_mask(from), e),
    ensures
        pseudo_legal_moves(b, b.turn).contains(mv(from, e, MoveType::EnPassant)),
{
    let c = b.turn;
    let x = mv(from, e, MoveType::EnPassant);
    assert(b.en_passant_ok());
    assert((e as i8) as u64 == e);
    assert(b.square_ok(from));
    assert(b.square_ok(e));
    let mask = piece_mask(b, from, b.piece_at(from));
    assert(has_sq(en_passant_mask(b), e));
    assert(has_sq(mask, e));
    assert(moves_to(b, from, PieceType::Pawn, e)[0] == x);
    lemma_dest_moves_contains(b, from, PieceType::Pawn, mask, 0, e, x);
    lemma_concat_contains(dest_moves(b, from, PieceType::Pawn, mask, 0), castle_moves(b, c, from), x);
    lemma_moves_from_contains(b, c, b.color_plane(c), 0, from, x);
}

/// The moves of `ms` from square `s` to square `d`, in order.
pub open spec fn moves_between(ms: Seq<Move>, s: u64, d: u64) -> Seq<Move>
    decreases ms.len(),
{
    if ms.len() == 0 {
        seq![]
    } else {
        moves_between(ms.drop_last(), s, d) + if ms.last().source as int == s as int
            && ms.last().destination as int == d as int {
            seq![ms.last()]
        } else {
            seq![]
        }
    }
}

proof fn lemma_between_concat(a: Seq<Move>, b: Seq<Move>, s: u64, d: u64)
    ensures
        moves_between(a + b, s, d) == moves_between(a, s, d) + moves_between(b, s, d),
    decreases b.len(),
{
    if b.len() == 0 {
        assert(a + b =~= a);
        assert(moves_between(a, s, d) + moves_between(b, s, d) =~= moves_between(a, s, d));
    } else {
        lemma_between_concat(a, b.drop_last(), s, d);
        assert((a + b).drop_last() =~= a + b.drop_last());
        assert((a + b).last() == b.last());
        let tail = if b.last().source as int == s as int && b.last().destination as int == d as int {
            seq![b.last()]
        } else {
            seq![]
        };
        assert(moves_between(a + b, s, d) =~= moves_between(a, s, d) + moves_between(
            b.drop_last(),
            s,
            d,
        ) + tail);
    }
}

/// All moves of `ms` go from `from` to `to`.
pub open spec fn all_between(ms: Seq<Move>, from: u64, to: u64) -> bool {
    forall|k: int|
        0 <= k < ms.len() ==> (#[trigger] ms[k]).source as int == from as int && ms[k].destination
            as int == to as int
}

proof fn lemma_between_uniform(ms: Seq<Move>, from: u64, to: u64, s: u64, d: u64)
    requires
        all_between(ms, from, to),
    ensures
        moves_between(ms, s, d) == if from == s && to == d {
            ms
        } else {
            seq![]
        },
    decreases ms.len(),
{
    if ms.len() > 0 {
        assert(all_between(ms.drop_last(), from, to));
        lemma_between_uniform(ms.drop_last(), from, to, s, d);
        assert(ms.last() == ms[ms.len() - 1]);
        if from == s && to == d {
            assert(ms.drop_last().push(ms.last()) =~= ms);
        }
    }
}

proof fn lemma_between_dest(b: Board, from: u64, t: PieceType, mask: u64, i: u64, s: u64, d: u64)
    requires
        from < 64,
        d < 64,
        i <= 64,
    ensures
        moves_between(dest_moves(b, from, t, mask, i), s, d) == if from == s && i <= d && has_sq(
            mask,
            d,
        ) {
            moves_to(b, from, t, d)
        } else {
            seq![]
        },
    decreases 64 - i,
{
    if i < 64 {
        let head = if has_sq(mask, i) {
            moves_to(b, from, t, i)
        } else {
            seq![]
        };
        lemma_between_dest(b, from, t, mask, (i + 1) as u64, s, d);
        lemma_between_concat(head, dest_moves(b, from, t, mask, (i + 1) as u64), s, d);
        assert(all_between(moves_to(b, from, t, i), from, i));
        lemma_between_uniform(moves_to(b, from, t, i), from, i, s, d);
        assert(all_between(seq![], from, i));
        lemma_between_uniform(seq![], from, i, s, d);
        if from == s && i == d && has_sq(mask, d) {
            assert(moves_between(head, s, d) + seq![] =~= moves_to(b, from, t, d));
        } else {
            assert(moves_between(head, s, d) =~= seq![]);
            assert(moves_between(head, s, d) + moves_between(
                dest_moves(b, from, t, mask, (i + 1) as u64),
                s,
                d,
            ) =~= moves_between(dest_moves(b, from, t, mask, (i + 1) as u64), s, d));
        }
    } else {
        assert(moves_between(seq![], s, d) =~= seq![]);
    }
}

proof fn lemma_between_moves_from(b: Board, c: PieceColor, own: u64, i: u64, s: u64, d: u64)
    requires
        i <= 64,
        s < 64,
        d < 64,
        b.type_at(s) != PieceType::King,
    ensures
        moves_between(moves_from(b, c, own, i), s, d) == if i <= s && has_sq(own, s) {
            moves_between(dest_moves(b, s, b.type_at(s), piece_mask(b, s, b.piece_at(s)), 0), s, d)
        } else {
            seq![]
        },
    decreases 64 - i,
{
    if i < 64 {
        lemma_between_moves_from(b, c, own, (i + 1) as u64, s, d);
        let dm = dest_moves(b, i, b.type_at(i), piece_mask(b, i, b.piece_at(i)), 0);
        let cm = castle_moves(b, c, i);
        let head = if has_sq(own, i) {
            piece_moves(b, c, i)
        } else {
            seq![]
        };
        lemma_between_concat(head, moves_from(b, c, own, (i + 1) as u64), s, d);
        lemma_between_concat(dm, cm, s, d);
        lemma_between_dest(b, i, b.type_at(i), piece_mask(b, i, b.piece_at(i)), 0, s, d);
        assert(forall|k: int| 0 <= k < cm.len() ==> (#[trigger] cm[k]).source as int == i as int);
        if i == s {
            assert(cm =~= seq![]);
        }
        assert(moves_between(cm, s, d) =~= seq![]) by {
            if i != s {
                assert forall|k: int| 0 <= k < cm.len() implies (#[trigger] cm[k]).source as int
                    != s as int by {}
                lemma_between_none(cm, s, d);
            }
        }
        assert(moves_between(seq![], s, d) =~= seq![]);
        if i == s && has_sq(own, s) {
            assert(moves_between(head, s, d) + moves_between(
                moves_from(b, c, own, (i + 1) as u64),
                s,
                d,
            ) =~= moves_between(dm, s, d));
        } else if i < s {
            assert(moves_between(head, s, d) =~= seq![]);
            assert(moves_between(head, s, d) + moves_between(
                moves_from(b, c, own, (i + 1) as u64),
                s,
                d,
            ) =~= moves_between(moves_from(b, c, own, (i + 1) as u64), s, d));
        } else {
            assert(moves_between(head, s, d) =~= seq![]);
            assert(moves_between(head, s, d) + moves_between(
                moves_from(b, c, own, (i + 1) as u64),
                s,
                d,
            ) =~= seq![]);
        }
    } else {
        assert(moves_between(seq![], s, d) =~= seq![]);
    }
}

proof fn lemma_between_none(ms: Seq<Move>, s: u64, d: u64)
    requires
        forall|k: int| 0 <= k < ms.len() ==> (#[trigger] ms[k]).source as int != s as int,
    ensures
        moves_between(ms, s, d) =~= seq![],
    decreases ms.len(),
{
    if ms.len() > 0 {
        assert(ms.last() == ms[ms.len() - 1]);
        lemma_between_none(ms.drop_last(), s, d);
    }
}

/// A pawn move to the last rank appears in the whole move list exactly as
/// the four promotions, and never as a normal move.
pub proof fn lemma_promotions_in_move_list(b: Board, s: u64, d: u64)
    requires
        b.wf(),
        s < 64,
        d < 64,
        b.holds(s, b.turn, PieceType::Pawn),
        has_sq(piece_mask(b, s, b.piece_at(s)), d),
        d / 8 == 0 || d / 8 == 7,
    ensures
        moves_between(pseudo_legal_moves(b, b.turn), s, d) == seq![
            mv(s, d, MoveType::PawnToKnight),
            mv(s, d, MoveType::PawnToBishop),
            mv(s, d, MoveType::PawnToRook),
            mv(s, d, MoveType::PawnToQueen),
        ],
{
    assert(b.square_ok(s));
    assert(has_sq(b.color_plane(b.turn), s));
    lemma_between_moves_from(b, b.turn, b.color_plane(b.turn), 0, s, d);
    lemma_between_dest(b, s, PieceType::Pawn, piece_mask(b, s, b.piece_at(s)), 0, s, d);
    lemma_promotion_moves(b, s, d);
}

} // verus!
