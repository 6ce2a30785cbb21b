//! Perft: the number of leaves of the legal-move tree to a given depth.

use crate::bits::{bit, group_bits, has_sq, lemma_lsb, lemma_popcount_one, lsb, popcount};
use crate::board::{
    apply_move, attacked_forward, attacks_from, kings_of, lemma_apply_kings_at, lemma_apply_wf,
    lemma_in_check_iff, lemma_undo_apply, undo_move, undo_record, Board,
};
use crate::lookup_tables::white_pawn_mask;
use crate::moves_generator::{en_passant_mask, piece_mask};
use crate::utils::{opponent, MoveType, PieceColor, PieceType};
use crate::moves_generator::{generate_pseudo_legal_moves, lemma_pseudo_legal_moves_ok, pseudo_legal_moves};
use crate::position::{king_in_check, lemma_make_undo, Position};
use crate::utils::Move;
use vstd::prelude::*;

verus! {

/// A pseudo-legal move is legal when it does not leave the mover's king
/// attacked.
pub open spec fn legal_after(b: Board, m: Move) -> bool {
    !apply_move(b, m).in_check(b.turn)
}

/// A count held in a `u64`: the count itself, or `u64::MAX` when larger.
pub open spec fn capped(n: nat) -> u64 {
    if n > u64::MAX {
        u64::MAX
    } else {
        n as u64
    }
}

/// Leaves of the legal-move tree of `b` at `depth` plies.
pub open spec fn perft_count(b: Board, depth: nat) -> nat
    decreases depth + 1, 0nat,
{
    if depth == 0 {
        1
    } else {
        perft_sum(b, pseudo_legal_moves(b, b.turn), depth)
    }
}

/// The leaves under the legal moves among `ms`.
pub open spec fn perft_sum(b: Board, ms: Seq<Move>, depth: nat) -> nat
    decreases depth, ms.len(),
{
    if depth == 0 || ms.len() == 0 {
        0
    } else {
        perft_sum(b, ms.drop_last(), depth) + if legal_after(b, ms.last()) {
            perft_count(apply_move(b, ms.last()), (depth - 1) as nat)
        } else {
            0
        }
    }
}

proof fn lemma_perft_sum_prefix(b: Board, ms: Seq<Move>, depth: nat, k: int)
    requires
        0 <= k <= ms.len(),
    ensures
        perft_sum(b, ms.take(k), depth) <= perft_sum(b, ms, depth),
    decreases ms.len(),
{
    if k < ms.len() {
        lemma_perft_sum_prefix(b, ms.drop_last(), depth, k);
        assert(ms.drop_last().take(k) =~= ms.take(k));
    } else {
        assert(ms.take(k) =~= ms);
    }
}

/// Counts the leaves of the legal-move tree below `position` at `depth`
/// plies, by make / undo, saturating at `u64::MAX`; the position is left
/// as it was.
pub fn perft(depth: i32, position: &mut Position) -> (r: u64)
    requires
        old(position).wf(),
        depth >= 0,
    ensures
        r == capped(perft_count(old(position).board, depth as nat)),
        final(position).board == old(position).board,
        final(position).history@ == old(position).history@,
        final(position).played@ == old(position).played@,
        final(position).wf(),
        final(position).tables == old(position).tables,
        final(position).halfmove_clock == old(position).halfmove_clock,
        final(position).number_of_move == old(position).number_of_move,
    decreases depth,
{
    if depth == 0 {
        return 1;
    }
    let ghost b0 = position.board;
    let ghost h0 = position.history@;
    let ghost p0 = position.played@;
    let ghost t0 = position.tables;
    let turn = position.get_turn();
    let moves = generate_pseudo_legal_moves(position, &turn);
    proof {
        lemma_pseudo_legal_moves_ok(b0);
    }
    let mut count: u64 = 0;
    let mut k: usize = 0;
    while k < moves.len()
        invariant
            0 < depth,
            k <= moves.len(),
            moves@ == pseudo_legal_moves(b0, b0.turn),
            turn == b0.turn,
            position.wf(),
            position.board == b0,
            position.history@ == h0,
            position.played@ == p0,
            position.tables == t0,
            position.halfmove_clock == old(position).halfmove_clock,
            position.number_of_move == old(position).number_of_move,
            count == capped(perft_sum(b0, moves@.take(k as int), depth as nat)),
            forall|j: int| 0 <= j < moves@.len() ==> crate::board::move_ok(b0, #[trigger] moves@[j]),
        decreases moves.len() - k,
    {
        let m = moves[k];
        proof {
            lemma_make_undo(*position, m);
            assert(moves@.take(k + 1).drop_last() =~= moves@.take(k as int));
            assert(moves@.take(k + 1).last() == m);
        }
        if depth == 1 {
            // At the last ply only legality matters: try the move on a copy.
            let mut child = position.board;
            child.apply(&m);
            if !king_in_check(&child, &position.tables, turn) {
                assert(perft_count(apply_move(b0, m), 0) == 1);
                count = count.saturating_add(1);
            }
        } else {
            position.make_move(&m);
            if !position.is_check(&turn) {
                let sub = perft(depth - 1, position);
                count = count.saturating_add(sub);
            }
            position.undo_last_move();
        }
        k += 1;
    }
    assert(moves@.take(moves@.len() as int) =~= moves@);
    count
}

/// A legal move leaves its mover's king unattacked and the board
/// well-formed, and taking it back restores the board bit for bit.
pub proof fn lemma_legal_move_round_trip(b: Board, k: int)
    requires
        b.wf(),
        0 <= k < pseudo_legal_moves(b, b.turn).len(),
        legal_after(b, pseudo_legal_moves(b, b.turn)[k]),
    ensures
        !apply_move(b, pseudo_legal_moves(b, b.turn)[k]).in_check(b.turn),
        apply_move(b, pseudo_legal_moves(b, b.turn)[k]).wf(),
        undo_move(
            apply_move(b, pseudo_legal_moves(b, b.turn)[k]),
            undo_record(b, pseudo_legal_moves(b, b.turn)[k]),
        ) == b,
{
    lemma_pseudo_legal_moves_ok(b);
    let m = pseudo_legal_moves(b, b.turn)[k];
    lemma_apply_wf(b, m);
    lemma_undo_apply(b, m);
}

/// Each side has exactly one king.
pub open spec fn one_king_each(b: Board) -> bool {
    popcount(kings_of(b, PieceColor::White)) == 1 && popcount(kings_of(b, PieceColor::Black)) == 1
}

proof fn lemma_single_bit(t: u64)
    requires
        t < 64,
    ensures
        popcount(bit(t)) == 1,
{
    broadcast use group_bits;

    assert(has_sq(bit(t), t));
    assert(bit(t) != 0);
    lemma_lsb(bit(t));
    lemma_popcount_one(bit(t));
}

proof fn lemma_same_kings(x: Board, y: Board, c: PieceColor)
    requires
        forall|i: u64| i < 64 ==> has_sq(kings_of(x, c), i) == has_sq(kings_of(y, c), i),
    ensures
        kings_of(x, c) == kings_of(y, c),
{
    crate::bits::lemma_ext(kings_of(x, c), kings_of(y, c));
}

/// A legal move from a position with one king per side, where the side not
/// to move is not in check, keeps one king per side, and again leaves the
/// side not to move out of check: both hold of every position reached by
/// legal moves from such a start.
pub proof fn lemma_legal_move_keeps_kings(b: Board, k: int)
    requires
        b.wf(),
        one_king_each(b),
        !b.in_check(opponent(b.turn)),
        0 <= k < pseudo_legal_moves(b, b.turn).len(),
        legal_after(b, pseudo_legal_moves(b, b.turn)[k]),
    ensures
        one_king_each(apply_move(b, pseudo_legal_moves(b, b.turn)[k])),
        !apply_move(b, pseudo_legal_moves(b, b.turn)[k]).in_check(
            opponent(apply_move(b, pseudo_legal_moves(b, b.turn)[k]).turn),
        ),
{
    broadcast use group_bits;

    let m = pseudo_legal_moves(b, b.turn)[k];
    lemma_pseudo_legal_moves_ok(b);
    let a = apply_move(b, m);
    let c = b.turn;
    let e = opponent(c);
    let from = m.source as u64;
    let to = m.destination as u64;
    assert(opponent(e) == c);
    assert forall|i: u64| i < 64 implies #[trigger] has_sq(kings_of(a, c), i) == if b.type_at(from)
        == PieceType::King {
        i == to || (has_sq(kings_of(b, c), i) && i != from)
    } else {
        has_sq(kings_of(b, c), i)
    } && has_sq(kings_of(a, e), i) == (has_sq(kings_of(b, e), i) && i != to) by {
        lemma_apply_kings_at(b, m, i);
    }
    // The opponent's king is not on the destination: it would be in check.
    lemma_popcount_one(kings_of(b, e));
    let ke = lsb(kings_of(b, e));
    assert(b.king_square(e) == ke);
    if has_sq(kings_of(b, e), to) {
        assert(to == ke);
        assert(b.square_ok(to));
        assert(m.move_type != MoveType::ShortCastle && m.move_type != MoveType::LongCastle);
        let p = b.piece_at(from);
        assert(b.square_ok(from));
        assert(has_sq(piece_mask(b, from, p), to));
        if p.piece_type == PieceType::Pawn {
            assert(has_sq(b.occupied(), to));
            if c == PieceColor::White {
                assert(has_sq(white_pawn_mask(from) & (b.occupied() | en_passant_mask(b)), to));
            } else {
                assert(has_sq(crate::lookup_tables::black_pawn_mask(from) & (b.occupied()
                    | en_passant_mask(b)), to));
            }
        }
        assert(has_sq(attacks_from(b, from), to));
        assert(attacked_forward(b, to, c));
        lemma_in_check_iff(b, e);
        assert(false);
    }
    assert(!has_sq(kings_of(b, e), to));
    assert forall|i: u64| i < 64 implies has_sq(kings_of(a, e), i) == has_sq(kings_of(b, e), i) by {
        lemma_apply_kings_at(b, m, i);
    }
    lemma_same_kings(a, b, e);
    if b.type_at(from) == PieceType::King {
        lemma_popcount_one(kings_of(b, c));
        assert(b.square_ok(from));
        assert(has_sq(kings_of(b, c), from));
        assert(kings_of(b, c) == bit(lsb(kings_of(b, c))));
        assert(from == lsb(kings_of(b, c)));
        assert forall|i: u64| i < 64 implies has_sq(kings_of(a, c), i) == has_sq(bit(to), i) by {}
        crate::bits::lemma_ext(kings_of(a, c), bit(to));
        lemma_single_bit(to);
    } else {
        lemma_same_kings(a, b, c);
    }
    if c == PieceColor::White {
        assert(one_king_each(a));
    } else {
        assert(one_king_each(a));
    }
}

/// The legal moves among `ms`, in order, each with the leaves below it.
pub open spec fn divide_entries(b: Board, ms: Seq<Move>, depth: nat) -> Seq<(Move, u64)>
    decreases ms.len(),
{
    if ms.len() == 0 {
        seq![]
    } else {
        divide_entries(b, ms.drop_last(), depth) + if legal_after(b, ms.last()) {
            seq![(ms.last(), capped(perft_count(apply_move(b, ms.last()), (depth - 1) as nat)))]
        } else {
            seq![]
        }
    }
}

/// Perft split by root move: each legal move of the side to move with the
/// leaves below it at `depth - 1` plies (saturating at `u64::MAX`), in
/// generation order; the position is left as it was.
pub fn pertf_divide(depth: i32, position: &mut Position) -> (r: Vec<(Move, u64)>)
    requires
        old(position).wf(),
        depth >= 1,
    ensures
        r@ == divide_entries(
            old(position).board,
            pseudo_legal_moves(old(position).board, old(position).board.turn),
            depth as nat,
        ),
        final(position).board == old(position).board,
        final(position).history@ == old(position).history@,
        final(position).played@ == old(position).played@,
        final(position).wf(),
        final(position).tables == old(position).tables,
        final(position).halfmove_clock == old(position).halfmove_clock,
        final(position).number_of_move == old(position).number_of_move,
{
    let ghost b0 = position.board;
    let ghost h0 = position.history@;
    let ghost p0 = position.played@;
    let ghost t0 = position.tables;
    let turn = position.get_turn();
    let moves = generate_pseudo_legal_moves(position, &turn);
    proof {
        lemma_pseudo_legal_moves_ok(b0);
    }
    let mut out: Vec<(Move, u64)> = Vec::new();
    let mut k: usize = 0;
    while k < moves.len()
        invariant
            0 < depth,
            k <= moves.len(),
            out@ == divide_entries(b0, moves@.take(k as int), depth as nat),
            moves@ == pseudo_legal_moves(b0, b0.turn),
            turn == b0.turn,
            position.wf(),
            position.board == b0,
            position.history@ == h0,
            position.played@ == p0,
            position.tables == t0,
            position.halfmove_clock == old(position).halfmove_clock,
            position.number_of_move == old(position).number_of_move,
            forall|j: int| 0 <= j < moves@.len() ==> crate::board::move_ok(b0, #[trigger] moves@[j]),
        decreases moves.len() - k,
    {
        let m = moves[k];
        proof {
            lemma_make_undo(*position, m);
            assert(moves@.take(k + 1).drop_last() =~= moves@.take(k as int));
            assert(moves@.take(k + 1).last() == m);
        }
        position.make_move(&m);
        if !position.is_check(&turn) {
            let sub = perft(depth - 1, position);
            out.push((m, sub));
        }
        position.undo_last_move();
        k += 1;
    }
    assert(moves@.take(moves@.len() as int) =~= moves@);
    out
}

} // verus!
