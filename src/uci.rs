//! Moves in UCI long-algebraic notation (`e2e4`, `e7e8q`, `e1g1`), matched
//! against the pseudo-legal moves of the side to move.

use crate::board::{apply_move, is_promotion, move_ok, Board};
use crate::fen::{fields_after, split_fields_exec};
use crate::moves_generator::{generate_pseudo_legal_moves, lemma_pseudo_legal_moves_ok, pseudo_legal_moves};
use crate::position::Position;
use crate::utils::{Move, MoveType};
use regex::bytes::Regex;
use vstd::prelude::*;
use vstd::string::StringSliceAdditionalSpecFns;

verus! {

/// A whole move text: from-file, from-rank, to-file, to-rank, and an
/// optional promotion letter among n, b, r, q.
pub open spec fn uci_notation(s: Seq<u8>) -> bool {
    &&& s.len() == 4 || s.len() == 5
    &&& 97 <= s[0] <= 104
    &&& 49 <= s[1] <= 56
    &&& 97 <= s[2] <= 104
    &&& 49 <= s[3] <= 56
    &&& s.len() == 5 ==> (s[4] == 110 || s[4] == 98 || s[4] == 114 || s[4] == 113)
}

/// Relies on regex's `bytes::Regex::is_match` with the anchored pattern
/// `^[a-h][1-8][a-h][1-8][nbrq]?$`: true exactly when the whole text is a
/// move in that notation.
#[verifier::external_body]
fn matches_uci_notation(s: &[u8]) -> (r: bool)
    ensures
        r == uci_notation(s@),
{
    Regex::new(r"^[a-h][1-8][a-h][1-8][nbrq]?$").unwrap().is_match(s)
}

pub open spec fn uci_square(file: u8, rank: u8) -> int {
    (rank - 49) * 8 + (file - 97)
}

pub open spec fn promotion_of_char(c: u8) -> MoveType {
    if c == 110 {
        MoveType::PawnToKnight
    } else if c == 98 {
        MoveType::PawnToBishop
    } else if c == 114 {
        MoveType::PawnToRook
    } else {
        MoveType::PawnToQueen
    }
}

/// Whether move `m` is the one a notation names: same squares, and the
/// promotion named exactly when `m` promotes.
pub open spec fn names_move(s: Seq<u8>, m: Move) -> bool {
    &&& m.source as int == uci_square(s[0], s[1])
    &&& m.destination as int == uci_square(s[2], s[3])
    &&& if s.len() == 5 {
        m.move_type == promotion_of_char(s[4])
    } else {
        !is_promotion(m.move_type)
    }
}

/// The first of `ms` from index `k` on that the notation names.
pub open spec fn first_named(s: Seq<u8>, ms: Seq<Move>, k: int) -> Option<Move>
    decreases ms.len() - k,
{
    if k >= ms.len() || k < 0 {
        None
    } else if names_move(s, ms[k]) {
        Some(ms[k])
    } else {
        first_named(s, ms, k + 1)
    }
}

/// The pseudo-legal move of the side to move that a text names; `None`
/// for a text not in the notation or naming no such move.
pub open spec fn uci_move_spec(b: Board, s: Seq<u8>) -> Option<Move> {
    if uci_notation(s) {
        first_named(s, pseudo_legal_moves(b, b.turn), 0)
    } else {
        None
    }
}

/// Plays the moves named by `toks` from index `i` on, stopping at the first
/// that names no pseudo-legal move; the board reached, and whether all
/// were played.
pub open spec fn play_uci_moves(b: Board, toks: Seq<Seq<u8>>, i: int) -> (Board, bool)
    decreases toks.len() - i,
{
    if i >= toks.len() || i < 0 {
        (b, true)
    } else {
        match uci_move_spec(b, toks[i]) {
            Some(m) => play_uci_moves(apply_move(b, m), toks, i + 1),
            None => (b, false),
        }
    }
}

proof fn lemma_first_named_in(s: Seq<u8>, ms: Seq<Move>, k: int)
    requires
        0 <= k,
    ensures
        first_named(s, ms, k) matches Some(m) ==> exists|j: int| 0 <= j < ms.len() && ms[j] == m,
    decreases ms.len() - k,
{
    if k < ms.len() && !names_move(s, ms[k]) {
        lemma_first_named_in(s, ms, k + 1);
    }
}

fn uci_move_bytes(s: &[u8], position: &Position) -> (r: Option<Move>)
    requires
        position.wf(),
    ensures
        r == uci_move_spec(position.board, s@),
        r matches Some(m) ==> move_ok(position.board, m),
{
    if !matches_uci_notation(s) {
        return None;
    }
    let from = ((s[1] - 49) * 8 + (s[0] - 97)) as i8;
    let to = ((s[3] - 49) * 8 + (s[2] - 97)) as i8;
    let promotion: Option<MoveType> = if s.len() == 5 {
        Some(
            if s[4] == 110 {
                MoveType::PawnToKnight
            } else if s[4] == 98 {
                MoveType::PawnToBishop
            } else if s[4] == 114 {
                MoveType::PawnToRook
            } else {
                MoveType::PawnToQueen
            },
        )
    } else {
        None
    };
    let turn = position.get_turn();
    let moves = generate_pseudo_legal_moves(position, &turn);
    let ghost ms = moves@;
    proof {
        lemma_pseudo_legal_moves_ok(position.board);
    }
    let mut k: usize = 0;
    while k < moves.len()
        invariant
            k <= moves.len(),
            moves@ == ms,
            position.wf(),
            ms == pseudo_legal_moves(position.board, position.board.turn),
            uci_notation(s@),
            from as int == uci_square(s@[0], s@[1]),
            to as int == uci_square(s@[2], s@[3]),
            promotion == (if s@.len() == 5 {
                Some(promotion_of_char(s@[4]))
            } else {
                None::<MoveType>
            }),
            first_named(s@, ms, 0) == first_named(s@, ms, k as int),
        decreases moves.len() - k,
    {
        let m = moves[k];
        let promotes = match m.move_type {
            MoveType::PawnToKnight | MoveType::PawnToBishop | MoveType::PawnToRook
            | MoveType::PawnToQueen => true,
            _ => false,
        };
        let kind_ok = match promotion {
            Some(p) => m.move_type == p,
            None => !promotes,
        };
        if m.source == from && m.destination == to && kind_ok {
            assert(names_move(s@, ms[k as int]));
            proof {
                lemma_pseudo_legal_moves_ok(position.board);
                assert(move_ok(
                    position.board,
                    pseudo_legal_moves(position.board, position.board.turn)[k as int],
                ));
            }
            return Some(m);
        }
        k += 1;
    }
    None
}

/// The pseudo-legal move of the side to move named by `move_string`.
pub fn uci_move(move_string: &str, position: &Position) -> (r: Option<Move>)
    requires
        position.wf(),
    ensures
        r == uci_move_spec(position.board, move_string.spec_bytes()),
{
    uci_move_bytes(move_string.as_bytes(), position)
}

/// Plays the moves listed after the five-byte command word of `command`
/// (`move e2e4 e7e5`), in order, stopping at the first one that names no
/// pseudo-legal move; returns whether all were played.
pub fn uci_make_move(command: &str, position: &mut Position) -> (r: bool)
    requires
        old(position).wf(),
    ensures
        (final(position).board, r) == play_uci_moves(
            old(position).board,
            fields_after(command.spec_bytes(), 5),
            0,
        ),
        final(position).wf(),
        final(position).tables == old(position).tables,
{
    play_uci_text(command.as_bytes(), 5, position)
}

/// Plays a whitespace-separated list of moves (`e2e4 e7e5`), in order,
/// stopping at the first one that names no pseudo-legal move; returns
/// whether all were played.
pub fn apply_uci_moves(moves: &str, position: &mut Position) -> (r: bool)
    requires
        old(position).wf(),
    ensures
        (final(position).board, r) == play_uci_moves(
            old(position).board,
            fields_after(moves.spec_bytes(), 0),
            0,
        ),
        final(position).wf(),
        final(position).tables == old(position).tables,
{
    play_uci_text(moves.as_bytes(), 0, position)
}

fn play_uci_text(text: &[u8], start: usize, position: &mut Position) -> (r: bool)
    requires
        old(position).wf(),
    ensures
        (final(position).board, r) == play_uci_moves(
            old(position).board,
            fields_after(text@, start as int),
            0,
        ),
        final(position).wf(),
        final(position).tables == old(position).tables,
{
    let toks = split_fields_exec(text, start);
    let ghost all = fields_after(text@, start as int);
    let ghost b0 = position.board;
    let mut i: usize = 0;
    while i < toks.len()
        invariant
            i <= toks.len(),
            toks@.len() == all.len(),
            forall|k: int| 0 <= k < toks@.len() ==> #[trigger] toks@[k]@ == all[k],
            position.wf(),
            position.tables == old(position).tables,
            b0 == old(position).board,
            all == fields_after(text@, start as int),
            play_uci_moves(b0, all, 0) == play_uci_moves(position.board, all, i as int),
        decreases toks.len() - i,
    {
        let tok = &toks[i];
        assert(tok@ == all[i as int]);
        let slice = tok.as_slice();
        assert(slice@ == all[i as int]);
        match uci_move_bytes(slice, position) {
            Some(m) => {
                position.make_move(&m);
            },
            None => {
                assert(uci_move_spec(position.board, all[i as int]) is None);
                assert(play_uci_moves(position.board, all, i as int) == (position.board, false));
                return false;
            },
        }
        i += 1;
    }
    true
}

pub open spec fn file_char(s: int) -> u8 {
    (97 + s % 8) as u8
}

pub open spec fn rank_char(s: int) -> u8 {
    (49 + s / 8) as u8
}

/// The UCI text of a move: its two squares, then the promotion letter of a
/// promotion.
pub open spec fn move_notation_spec(m: Move) -> Seq<u8> {
    let squares = seq![
        file_char(m.source as int),
        rank_char(m.source as int),
        file_char(m.destination as int),
        rank_char(m.destination as int),
    ];
    match m.move_type {
        MoveType::PawnToKnight => squares.push(110),
        MoveType::PawnToBishop => squares.push(98),
        MoveType::PawnToRook => squares.push(114),
        MoveType::PawnToQueen => squares.push(113),
        _ => squares,
    }
}

/// The UCI text of a move on the board, as bytes.
pub fn move_notation(m: &Move) -> (r: Vec<u8>)
    requires
        0 <= m.source < 64,
        0 <= m.destination < 64,
    ensures
        r@ == move_notation_spec(*m),
{
    let mut v: Vec<u8> = Vec::new();
    v.push((97 + m.source % 8) as u8);
    v.push((49 + m.source / 8) as u8);
    v.push((97 + m.destination % 8) as u8);
    v.push((49 + m.destination / 8) as u8);
    match m.move_type {
        MoveType::PawnToKnight => v.push(110),
        MoveType::PawnToBishop => v.push(98),
        MoveType::PawnToRook => v.push(114),
        MoveType::PawnToQueen => v.push(113),
        _ => {},
    }
    assert(v@ =~= move_notation_spec(*m));
    v
}

} // verus!
