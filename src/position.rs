//! The position: the board, the undo history and the lookup tables, with the
//! queries that move generation and search ask of it, and in-place
//! make / undo.

use crate::board::{
    apply_move, has_right, king_home, lemma_apply_wf, lemma_undo_apply, move_ok, record_in_range,
    rook_long_from, rook_short_from, undo_move, undo_record, Board, BLACK_LONG, BLACK_SHORT,
    WHITE_LONG, WHITE_SHORT,
};
use crate::bits::{group_bits, has_sq};
use crate::fen::{parse_fen, parse_fen_spec};
use crate::lookup_tables::{slider_lookup, LookUpTable};
use crate::moves_generator::{generate_pseudo_legal_moves, lemma_pseudo_legal_moves_ok, pseudo_legal_moves};
use crate::utils::{opponent, Move, Piece, PieceColor, PieceType, UndoMove};
use vstd::prelude::*;
use vstd::string::StringSliceAdditionalSpecFns;

verus! {

broadcast use group_bits;

pub struct Position {
    pub board: Board,
    pub halfmove_clock: u16,
    pub number_of_move: u16,
    pub history: Vec<UndoMove>,
    /// For each record of `history`, the board and move it was made from.
    pub played: Ghost<Seq<(Board, Move)>>,
    pub tables: LookUpTable,
}

/// The castling right of colour `c` on the king side (`short`) or the queen side.
pub open spec fn castle_flag(c: PieceColor, short: bool) -> u8 {
    if c == PieceColor::White {
        if short {
            WHITE_SHORT
        } else {
            WHITE_LONG
        }
    } else {
        if short {
            BLACK_SHORT
        } else {
            BLACK_LONG
        }
    }
}

impl Board {
    /// Castling king side: the right is held, the rook is at home, the two
    /// squares right of the king are empty, and neither the king's square
    /// nor the two it crosses and lands on is attacked.
    pub open spec fn can_castle_short(&self, c: PieceColor) -> bool {
        let k = king_home(c);
        let occ = self.occupied();
        let e = opponent(c);
        &&& has_right(self.castling_rights, castle_flag(c, true))
        &&& has_sq(self.color_plane(c) & self.rooks_board, rook_short_from(c))
        &&& !has_sq(occ, (k + 1) as u64)
        &&& !has_sq(occ, (k + 2) as u64)
        &&& !self.attacked_by(k, e)
        &&& !self.attacked_by((k + 1) as u64, e)
        &&& !self.attacked_by((k + 2) as u64, e)
    }

    /// Castling queen side: the right is held, the rook is at home, the
    /// three squares left of the king are empty, and neither the king's
    /// square nor the two it crosses and lands on is attacked.
    pub open spec fn can_castle_long(&self, c: PieceColor) -> bool {
        let k = king_home(c);
        let occ = self.occupied();
        let e = opponent(c);
        &&& has_right(self.castling_rights, castle_flag(c, false))
        &&& has_sq(self.color_plane(c) & self.rooks_board, rook_long_from(c))
        &&& !has_sq(occ, (k - 1) as u64)
        &&& !has_sq(occ, (k - 2) as u64)
        &&& !has_sq(occ, (k - 3) as u64)
        &&& !self.attacked_by(k, e)
        &&& !self.attacked_by((k - 1) as u64, e)
        &&& !self.attacked_by((k - 2) as u64, e)
    }
}

impl Position {
    /// Sets up the position that a FEN text describes, or `None` when the
    /// text is malformed.
    pub fn try_from_fen(fen: &str) -> (r: Option<Position>)
        ensures
            r.is_some() == parse_fen_spec(fen.spec_bytes()).is_some(),
            r matches Some(p) ==> {
                &&& p.wf()
                &&& (p.board, p.halfmove_clock, p.number_of_move) == parse_fen_spec(
                    fen.spec_bytes(),
                ).unwrap()
                &&& p.history@.len() == 0
            },
    {
        match parse_fen(fen) {
            Some((board, halfmove_clock, number_of_move)) => Some(
                Position {
                    board,
                    halfmove_clock,
                    number_of_move,
                    history: Vec::new(),
                    played: Ghost(Seq::empty()),
                    tables: LookUpTable::init(),
                },
            ),
            None => None,
        }
    }

    /// Sets up the position of a well-formed FEN text.
    pub fn from_fen(fen: &str) -> (r: Position)
        requires
            parse_fen_spec(fen.spec_bytes()).is_some(),
        ensures
            r.wf(),
            (r.board, r.halfmove_clock, r.number_of_move) == parse_fen_spec(
                fen.spec_bytes(),
            ).unwrap(),
            r.history@.len() == 0,
    {
        Self::try_from_fen(fen).unwrap()
    }

    /// Replaces the game by the position of a FEN text, keeping the lookup
    /// tables; changes nothing and returns false when the text is malformed.
    pub fn load_fen(&mut self, fen: &str) -> (r: bool)
        requires
            old(self).wf(),
        ensures
            r == parse_fen_spec(fen.spec_bytes()).is_some(),
            final(self).wf(),
            final(self).tables == old(self).tables,
            r ==> (final(self).board, final(self).halfmove_clock, final(self).number_of_move)
                == parse_fen_spec(fen.spec_bytes()).unwrap() && final(self).history@.len() == 0,
            !r ==> final(self).board == old(self).board && final(self).history@ == old(
                self,
            ).history@,
    {
        match parse_fen(fen) {
            Some((board, halfmove_clock, number_of_move)) => {
                self.board = board;
                self.halfmove_clock = halfmove_clock;
                self.number_of_move = number_of_move;
                self.history = Vec::new();
                self.played = Ghost(Seq::empty());
                true
            },
            None => false,
        }
    }

    /// The `k`-th record was made by a move that make and undo accept on a
    /// well-formed board, and leads to the board of the next record (or to
    /// the current board).
    pub open spec fn history_step_ok(&self, k: int) -> bool {
        let (pb, m) = self.played@[k];
        &&& pb.wf()
        &&& move_ok(pb, m)
        &&& self.history@[k] == undo_record(pb, m)
        &&& apply_move(pb, m) == if k + 1 < self.played@.len() {
            self.played@[k + 1].0
        } else {
            self.board
        }
    }

    pub open spec fn wf(&self) -> bool {
        &&& self.board.wf()
        &&& self.tables.wf()
        &&& forall|k: int| 0 <= k < self.history@.len() ==> record_in_range(#[trigger] self.history@[k])
        &&& self.played@.len() == self.history@.len()
        &&& forall|k: int| 0 <= k < self.played@.len() ==> #[trigger] self.history_step_ok(k)
    }

    /// Whether a piece of `attacker_color` attacks square `index`: each
    /// piece kind's pattern is run backwards from the square and met with
    /// the attacker's pieces of that kind.
    pub fn is_square_attack_by(&self, index: &i8, attacker_color: &PieceColor) -> (r: bool)
        requires
            self.wf(),
            0 <= *index < 64,
            *attacker_color != PieceColor::NoColor,
        ensures
            r == self.board.attacked_by(*index as u64, *attacker_color),
    {
        square_attacked(&self.board, &self.tables, *index as u64, *attacker_color)
    }

    /// The square of the king of `color` (its lowest one), 64 if it has none.
    pub fn get_king_coord(&self, color: &PieceColor) -> (r: i8)
        requires
            *color != PieceColor::NoColor,
        ensures
            r as u64 == self.board.king_square(*color),
            0 <= r <= 64,
    {
        let kings = self.board.kings_board & self.board.get_color_plane(*color);
        proof {
            vstd::std_specs::bits::axiom_u64_trailing_zeros(kings);
        }
        kings.trailing_zeros() as i8
    }

    /// Whether the king of `color` is attacked; a side without a king is
    /// never in check.
    pub fn is_check(&self, color: &PieceColor) -> (r: bool)
        requires
            self.wf(),
            *color != PieceColor::NoColor,
        ensures
            r == self.board.in_check(*color),
    {
        let k = self.get_king_coord(color);
        if k >= 64 {
            false
        } else {
            self.is_square_attack_by(&k, &color.opponent())
        }
    }

    pub fn get_turn(&self) -> (r: PieceColor)
        ensures
            r == self.board.turn,
    {
        self.board.turn
    }

    pub fn get_piece_on_square(&self, index: &i8) -> (r: Piece)
        requires
            0 <= *index < 64,
        ensures
            r == self.board.piece_at(*index as u64),
    {
        let s = *index as u64;
        Piece { color: self.board.color_at_exec(s), piece_type: self.board.type_at_exec(s) }
    }

    pub fn get_board(&self) -> (r: u64)
        ensures
            r == self.board.occupied(),
    {
        self.board.white_board | self.board.black_board
    }

    pub fn get_white_board(&self) -> (r: u64)
        ensures
            r == self.board.white_board,
    {
        self.board.white_board
    }

    pub fn get_black_board(&self) -> (r: u64)
        ensures
            r == self.board.black_board,
    {
        self.board.black_board
    }

    pub fn get_pawns_board(&self) -> (r: u64)
        ensures
            r == self.board.pawns_board,
    {
        self.board.pawns_board
    }

    pub fn get_knight_board(&self) -> (r: u64)
        ensures
            r == self.board.knights_board,
    {
        self.board.knights_board
    }

    pub fn get_bishops_board(&self) -> (r: u64)
        ensures
            r == self.board.bishops_board,
    {
        self.board.bishops_board
    }

    pub fn get_rook_board(&self) -> (r: u64)
        ensures
            r == self.board.rooks_board,
    {
        self.board.rooks_board
    }

    pub fn get_queens_board(&self) -> (r: u64)
        ensures
            r == self.board.queens_board,
    {
        self.board.queens_board
    }

    pub fn get_kings_board(&self) -> (r: u64)
        ensures
            r == self.board.kings_board,
    {
        self.board.kings_board
    }

    pub fn get_en_passant(&self) -> (r: Option<i8>)
        ensures
            r == self.board.en_passant,
    {
        self.board.en_passant
    }

    pub fn get_castling_rights(&self) -> (r: u8)
        ensures
            r == self.board.castling_rights,
    {
        self.board.castling_rights
    }

    /// Number of moves made since the position was set up.
    pub fn history_len(&self) -> (r: usize)
        ensures
            r == self.history@.len(),
    {
        self.history.len()
    }

    pub fn can_short_castle(&self, color: &PieceColor) -> (r: bool)
        requires
            self.wf(),
            *color != PieceColor::NoColor,
        ensures
            r == self.board.can_castle_short(*color),
    {
        let b = &self.board;
        let occ = b.white_board | b.black_board;
        let c = *color;
        let e = c.opponent();
        let (flag, k, rook): (u8, i8, u64) = if c == PieceColor::White {
            (WHITE_SHORT, 4, 7)
        } else {
            (BLACK_SHORT, 60, 63)
        };
        (b.castling_rights & flag) != 0 && ((b.get_color_plane(c) & b.rooks_board) >> rook) & 1 == 1
            && (occ >> ((k + 1) as u64)) & 1 != 1 && (occ >> ((k + 2) as u64)) & 1 != 1
            && !self.is_square_attack_by(&k, &e) && !self.is_square_attack_by(&(k + 1), &e)
            && !self.is_square_attack_by(&(k + 2), &e)
    }

    pub fn can_long_castle(&self, color: &PieceColor) -> (r: bool)
        requires
            self.wf(),
            *color != PieceColor::NoColor,
        ensures
            r == self.board.can_castle_long(*color),
    {
        let b = &self.board;
        let occ = b.white_board | b.black_board;
        let c = *color;
        let e = c.opponent();
        let (flag, k, rook): (u8, i8, u64) = if c == PieceColor::White {
            (WHITE_LONG, 4, 0)
        } else {
            (BLACK_LONG, 60, 56)
        };
        (b.castling_rights & flag) != 0 && ((b.get_color_plane(c) & b.rooks_board) >> rook) & 1 == 1
            && (occ >> ((k - 1) as u64)) & 1 != 1 && (occ >> ((k - 2) as u64)) & 1 != 1 && (occ >> ((
        k - 3) as u64)) & 1 != 1 && !self.is_square_attack_by(&k, &e) && !self.is_square_attack_by(
            &(k - 1),
            &e,
        ) && !self.is_square_attack_by(&(k - 2), &e)
    }

    /// Plays `mov` in place and pushes its undo record.
    pub fn make_move(&mut self, mov: &Move)
        requires
            old(self).wf(),
            move_ok(old(self).board, *mov),
        ensures
            final(self).wf(),
            final(self).board == apply_move(old(self).board, *mov),
            final(self).history@ == old(self).history@.push(undo_record(old(self).board, *mov)),
            final(self).played@ == old(self).played@.push((old(self).board, *mov)),
            final(self).tables == old(self).tables,
            final(self).halfmove_clock == old(self).halfmove_clock,
            final(self).number_of_move == old(self).number_of_move,
    {
        let ghost old_board = self.board;
        let b = &self.board;
        let moved = b.type_at_exec(mov.source as u64);
        let captured = b.type_at_exec(mov.destination as u64);
        let record = UndoMove {
            source: mov.source,
            destination: mov.destination,
            move_type: mov.move_type,
            piece_moved: moved,
            piece_captured: captured,
            castling_rights: b.castling_rights,
            turn: b.turn,
            en_passant: b.en_passant,
        };
        self.history.push(record);
        self.board.apply_typed(mov, moved, captured);
        proof {
            self.played = Ghost(self.played@.push((old_board, *mov)));
            assert forall|k: int| 0 <= k < self.played@.len() implies #[trigger] self.history_step_ok(
                k,
            ) by {
                if k < old(self).played@.len() {
                    assert(old(self).history_step_ok(k));
                    assert(self.history@[k] == old(self).history@[k]);
                    if k + 1 == old(self).played@.len() {
                        assert(self.played@[k + 1].0 == old_board);
                    }
                }
            }
        }
        assert forall|k: int| 0 <= k < self.history@.len() implies record_in_range(
            #[trigger] self.history@[k],
        ) by {
            if k < old(self).history@.len() {
                assert(self.history@[k] == old(self).history@[k]);
            }
        }
    }

    /// Plays `mov` when it is a pseudo-legal move of the side to move and
    /// returns true; otherwise reports false and leaves the position as it was.
    pub fn make_move_checked(&mut self, mov: &Move) -> (r: bool)
        requires
            old(self).wf(),
        ensures
            r == exists|k: int|
                0 <= k < pseudo_legal_moves(old(self).board, old(self).board.turn).len()
                    && same_move(
                    #[trigger] pseudo_legal_moves(old(self).board, old(self).board.turn)[k],
                    *mov,
                ),
            final(self).wf(),
            r ==> final(self).board == apply_move(old(self).board, *mov) && final(self).history@
                == old(self).history@.push(undo_record(old(self).board, *mov)),
            !r ==> final(self).board == old(self).board && final(self).history@ == old(
                self,
            ).history@ && final(self).played@ == old(self).played@,
            final(self).tables == old(self).tables,
            final(self).halfmove_clock == old(self).halfmove_clock,
            final(self).number_of_move == old(self).number_of_move,
    {
        if self.is_legal_move(mov) {
            self.make_move(mov);
            true
        } else {
            false
        }
    }

    /// Takes back the last move. Returns false, and changes nothing, when
    /// no move is left to take back.
    pub fn undo_last_move(&mut self) -> (r: bool)
        requires
            old(self).wf(),
        ensures
            r == (old(self).history@.len() > 0),
            !r ==> final(self).board == old(self).board && final(self).history@ == old(
                self,
            ).history@,
            r ==> final(self).board == undo_move(old(self).board, old(self).history@.last())
                && final(self).history@ == old(self).history@.drop_last(),
            r ==> final(self).board == old(self).played@.last().0 && final(self).played@ == old(
                self,
            ).played@.drop_last(),
            !r ==> final(self).played@ == old(self).played@,
            final(self).wf(),
            final(self).tables == old(self).tables,
            final(self).halfmove_clock == old(self).halfmove_clock,
            final(self).number_of_move == old(self).number_of_move,
    {
        match self.history.pop() {
            None => false,
            Some(record) => {
                proof {
                    let n = old(self).played@.len() - 1;
                    assert(old(self).history_step_ok(n));
                    lemma_undo_apply(old(self).played@[n].0, old(self).played@[n].1);
                    assert(record == old(self).history@[n]);
                }
                self.board.unapply(&record);
                proof {
                    self.played = Ghost(self.played@.drop_last());
                    assert forall|k: int| 0 <= k < self.played@.len() implies #[trigger] self.history_step_ok(
                        k,
                    ) by {
                        assert(old(self).history_step_ok(k));
                        assert(self.history@[k] == old(self).history@[k]);
                    }
                }
                true
            },
        }
    }
}

/// Whether a piece of colour `c` attacks square `s` of board `b`.
pub fn square_attacked(b: &Board, t: &LookUpTable, s: u64, c: PieceColor) -> (r: bool)
    requires
        t.wf(),
        s < 64,
        c != PieceColor::NoColor,
    ensures
        r == b.attacked_by(s, c),
{
    let board = b.white_board | b.black_board;
    let own = b.get_color_plane(c);
    if t.knight_attacks[s as usize] & b.knights_board & own != 0 {
        return true;
    }
    if t.king_attacks[s as usize] & b.kings_board & own != 0 {
        return true;
    }
    let pawn_mask = if c == PieceColor::White {
        t.black_pawn_attacks[s as usize]
    } else {
        t.white_pawn_attacks[s as usize]
    };
    if pawn_mask & b.pawns_board & own != 0 {
        return true;
    }
    let bishop_mask = slider_lookup(&t.bishop, false, s, board);
    if bishop_mask & (b.bishops_board | b.queens_board) & own != 0 {
        return true;
    }
    let rook_mask = slider_lookup(&t.rook, true, s, board);
    rook_mask & (b.rooks_board | b.queens_board) & own != 0
}

/// Whether the king of colour `c` on board `b` is attacked.
pub fn king_in_check(b: &Board, t: &LookUpTable, c: PieceColor) -> (r: bool)
    requires
        t.wf(),
        c != PieceColor::NoColor,
    ensures
        r == b.in_check(c),
{
    let kings = b.kings_board & b.get_color_plane(c);
    proof {
        vstd::std_specs::bits::axiom_u64_trailing_zeros(kings);
    }
    let k = kings.trailing_zeros() as u64;
    k < 64 && square_attacked(b, t, k, c.opponent())
}

/// The squares of bitboard `b` from square `i` upwards, in increasing order.
pub open spec fn squares_from(b: u64, i: u64) -> Seq<i8>
    decreases 64 - i,
{
    if i >= 64 {
        seq![]
    } else {
        (if has_sq(b, i) {
            seq![i as i8]
        } else {
            seq![]
        }) + squares_from(b, (i + 1) as u64)
    }
}

/// Whether two moves agree on squares and kind (the ordering hint aside).
pub open spec fn same_move(a: Move, b: Move) -> bool {
    a.source == b.source && a.destination == b.destination && a.move_type == b.move_type
}

impl Position {
    /// The squares of the pieces of `piece_color`, in increasing order.
    pub fn get_available_piece_coords(&self, piece_color: &PieceColor) -> (r: Vec<i8>)
        ensures
            r@ == squares_from(self.board.color_plane(*piece_color), 0),
    {
        let board = self.board.get_color_plane(*piece_color);
        let mut coords: Vec<i8> = Vec::new();
        let mut sq: u64 = 0;
        while sq < 64
            invariant
                sq <= 64,
                board == self.board.color_plane(*piece_color),
                coords@ + squares_from(board, sq) == squares_from(board, 0),
            decreases 64 - sq,
        {
            let ghost before = coords@;
            if (board >> sq) & 1 == 1 {
                coords.push(sq as i8);
            }
            assert(coords@ + squares_from(board, (sq + 1) as u64) =~= before + squares_from(
                board,
                sq,
            ));
            sq += 1;
        }
        assert(coords@ =~= squares_from(board, 0));
        coords
    }

    /// Whether `mov` is a pseudo-legal move of the side to move: its piece,
    /// squares and kind are those of a generated move.
    pub fn is_legal_move(&self, mov: &Move) -> (r: bool)
        requires
            self.wf(),
        ensures
            r == exists|k: int|
                0 <= k < pseudo_legal_moves(self.board, self.board.turn).len() && same_move(
                    #[trigger] pseudo_legal_moves(self.board, self.board.turn)[k],
                    *mov,
                ),
            r ==> move_ok(self.board, *mov),
    {
        let turn = self.get_turn();
        let moves = generate_pseudo_legal_moves(self, &turn);
        proof {
            lemma_pseudo_legal_moves_ok(self.board);
        }
        let mut k: usize = 0;
        while k < moves.len()
            invariant
                k <= moves.len(),
                self.wf(),
                moves@ == pseudo_legal_moves(self.board, self.board.turn),
                forall|j: int| 0 <= j < k ==> !same_move(#[trigger] moves@[j], *mov),
            decreases moves.len() - k,
        {
            let m = moves[k];
            if m.source == mov.source && m.destination == mov.destination && m.move_type
                == mov.move_type {
                assert(same_move(moves@[k as int], *mov));
                proof {
                    lemma_pseudo_legal_moves_ok(self.board);
                }
                assert(move_ok(
                    self.board,
                    pseudo_legal_moves(self.board, self.board.turn)[k as int],
                ));
                return true;
            }
            k += 1;
        }
        false
    }
}

/// The figurine of a piece, or a middle dot for an empty square.
pub open spec fn figurine(piece: Piece) -> char {
    match (piece.color, piece.piece_type) {
        (PieceColor::White, PieceType::Pawn) => '\u{2659}',
        (PieceColor::White, PieceType::Knight) => '\u{2658}',
        (PieceColor::White, PieceType::Bishop) => '\u{2657}',
        (PieceColor::White, PieceType::Rook) => '\u{2656}',
        (PieceColor::White, PieceType::Queen) => '\u{2655}',
        (PieceColor::White, PieceType::King) => '\u{2654}',
        (PieceColor::Black, PieceType::Pawn) => '\u{265F}',
        (PieceColor::Black, PieceType::Knight) => '\u{265E}',
        (PieceColor::Black, PieceType::Bishop) => '\u{265D}',
        (PieceColor::Black, PieceType::Rook) => '\u{265C}',
        (PieceColor::Black, PieceType::Queen) => '\u{265B}',
        (PieceColor::Black, PieceType::King) => '\u{265A}',
        _ => '\u{00B7}',
    }
}

impl Position {
    pub fn piece_to_unicode(&self, piece: &Piece) -> (r: char)
        ensures
            r == figurine(*piece),
    {
        match (piece.color, piece.piece_type) {
            (PieceColor::White, PieceType::Pawn) => '\u{2659}',
            (PieceColor::White, PieceType::Knight) => '\u{2658}',
            (PieceColor::White, PieceType::Bishop) => '\u{2657}',
            (PieceColor::White, PieceType::Rook) => '\u{2656}',
            (PieceColor::White, PieceType::Queen) => '\u{2655}',
            (PieceColor::White, PieceType::King) => '\u{2654}',
            (PieceColor::Black, PieceType::Pawn) => '\u{265F}',
            (PieceColor::Black, PieceType::Knight) => '\u{265E}',
            (PieceColor::Black, PieceType::Bishop) => '\u{265D}',
            (PieceColor::Black, PieceType::Rook) => '\u{265C}',
            (PieceColor::Black, PieceType::Queen) => '\u{265B}',
            (PieceColor::Black, PieceType::King) => '\u{265A}',
            _ => '\u{00B7}',
        }
    }
}

/// Making a move and taking it back leaves the position as it was: board,
/// history and tables.
pub proof fn lemma_make_undo(p: Position, m: Move)
    requires
        p.wf(),
        move_ok(p.board, m),
    ensures
        undo_move(apply_move(p.board, m), undo_record(p.board, m)) == p.board,
        p.history@.push(undo_record(p.board, m)).drop_last() == p.history@,
        p.played@.push((p.board, m)).drop_last() == p.played@,
        apply_move(p.board, m).wf(),
{
    lemma_undo_apply(p.board, m);
    lemma_apply_wf(p.board, m);
    assert(p.history@.push(undo_record(p.board, m)).drop_last() =~= p.history@);
    assert(p.played@.push((p.board, m)).drop_last() =~= p.played@);
}

} // verus!
