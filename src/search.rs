//! Alpha-beta search, White maximising and Black minimising, over make /
//! undo, with the static evaluation at the leaves.

use crate::board::{apply_move, move_ok, Board};
use crate::evaluation::{evaluate, evaluation, lemma_evaluation_bounds, lemma_evaluation_below_mate};
use crate::board::{kings_of, lemma_apply_wf};
use crate::perft::{lemma_legal_move_keeps_kings, one_king_each};
use crate::utils::opponent;
use crate::moves_generator::{generate_pseudo_legal_moves, lemma_pseudo_legal_moves_ok, pseudo_legal_moves};
use crate::perft::legal_after;
use crate::position::{lemma_make_undo, Position};
use crate::utils::{color_sign, Move, PieceColor};
use vstd::prelude::*;

verus! {

/// Score of a checkmate, from White's point of view when White mates.
pub const MATE_SCORE: i32 = 1000000;

/// A bound beyond every score the search can return.
pub const INFINITY: i32 = 100000000;

/// Plies searched by `best_move`.
pub const SEARCH_DEPTH: usize = 5;

pub open spec fn max(a: int, b: int) -> int {
    if a >= b {
        a
    } else {
        b
    }
}

pub open spec fn min(a: int, b: int) -> int {
    if a <= b {
        a
    } else {
        b
    }
}

/// The score of a side with no legal move: mated when in check, else a draw.
pub open spec fn terminal_score(b: Board) -> int {
    if b.in_check(b.turn) {
        -MATE_SCORE * color_sign(b.turn)
    } else {
        0
    }
}

/// Alpha-beta value of `b` at `depth` plies in the window (`alpha`, `beta`).
pub open spec fn alpha_beta_value(b: Board, depth: nat, alpha: int, beta: int) -> int
    decreases depth + 1, 0nat,
{
    if depth == 0 {
        evaluation(b)
    } else {
        let ms = pseudo_legal_moves(b, b.turn);
        let (score, any) = alpha_beta_loop(
            b,
            ms,
            depth,
            0,
            -INFINITY * color_sign(b.turn),
            alpha,
            beta,
            false,
        );
        if any {
            score
        } else {
            terminal_score(b)
        }
    }
}

/// The move loop of `alpha_beta_value` from the `k`-th move on, with the
/// best score so far, the window, and whether a legal move was seen;
/// returns the best score and that flag, stopping at a cutoff.
pub open spec fn alpha_beta_loop(
    b: Board,
    ms: Seq<Move>,
    depth: nat,
    k: int,
    score: int,
    alpha: int,
    beta: int,
    any: bool,
) -> (int, bool)
    decreases depth, ms.len() - k,
{
    if depth == 0 || k >= ms.len() || k < 0 {
        (score, any)
    } else if !legal_after(b, ms[k]) {
        alpha_beta_loop(b, ms, depth, k + 1, score, alpha, beta, any)
    } else {
        let v = alpha_beta_value(apply_move(b, ms[k]), (depth - 1) as nat, alpha, beta);
        if b.turn == PieceColor::White {
            let s = max(score, v);
            let a = max(alpha, s);
            if beta <= a {
                (s, true)
            } else {
                alpha_beta_loop(b, ms, depth, k + 1, s, a, beta, true)
            }
        } else {
            let s = min(score, v);
            let bt = min(beta, s);
            if bt <= alpha {
                (s, true)
            } else {
                alpha_beta_loop(b, ms, depth, k + 1, s, alpha, bt, true)
            }
        }
    }
}

/// Alpha-beta search of `position` to `depth` plies in the window
/// (`alpha`, `beta`); the position is left as it was.
pub fn alpha_beta(position: &mut Position, depth: usize, alpha: i32, beta: i32) -> (r: i32)
    requires
        old(position).wf(),
    ensures
        r == alpha_beta_value(old(position).board, depth as nat, alpha as int, beta as int),
        -INFINITY <= r <= INFINITY,
        -INFINITY <= alpha < beta <= INFINITY ==> {
            let v = minimax_value(old(position).board, depth as nat);
            &&& alpha < r < beta ==> r == v
            &&& r <= alpha ==> v <= r
            &&& r >= beta ==> v >= r
        },
        alpha == -INFINITY && beta == INFINITY ==> r == minimax_value(
            old(position).board,
            depth as nat,
        ),
        depth == 0 ==> r == evaluation(old(position).board),
        final(position).board == old(position).board,
        final(position).history@ == old(position).history@,
        final(position).played@ == old(position).played@,
        final(position).wf(),
        final(position).tables == old(position).tables,
        final(position).halfmove_clock == old(position).halfmove_clock,
        final(position).number_of_move == old(position).number_of_move,
    decreases depth,
{
    proof {
        if -INFINITY <= alpha < beta <= INFINITY {
            lemma_alpha_beta_sound(old(position).board, depth as nat, alpha as int, beta as int);
        }
        if alpha == -INFINITY && beta == INFINITY {
            lemma_full_window_is_minimax(old(position).board, depth as nat);
        }
    }
    if depth == 0 {
        let e = evaluate(position);
        proof {
            crate::evaluation::lemma_evaluation_bounds(position.board);
        }
        return e;
    }
    let ghost b0 = position.board;
    let ghost h0 = position.history@;
    let ghost p0 = position.played@;
    let ghost t0 = position.tables;
    let turn = position.get_turn();
    let moves = generate_pseudo_legal_moves(position, &turn);
    proof {
        lemma_pseudo_legal_moves_ok(b0);
    }
    let ghost alpha_in = alpha as int;
    let ghost beta_in = beta as int;
    let mut alpha = alpha;
    let mut beta = beta;
    let mut score: i32 = -INFINITY * turn.sign();
    let mut any = false;
    let mut cut = false;
    let mut k: usize = 0;
    while k < moves.len() && !cut
        invariant
            0 < depth,
            k <= moves.len(),
            moves@ == pseudo_legal_moves(b0, b0.turn),
            turn == b0.turn,
            turn != PieceColor::NoColor,
            position.wf(),
            position.board == b0,
            position.history@ == h0,
            position.played@ == p0,
            position.tables == t0,
            position.halfmove_clock == old(position).halfmove_clock,
            position.number_of_move == old(position).number_of_move,
            -INFINITY <= score <= INFINITY,
            forall|j: int| 0 <= j < moves@.len() ==> move_ok(b0, #[trigger] moves@[j]),
            !cut ==> alpha_beta_loop(
                b0,
                moves@,
                depth as nat,
                0,
                -INFINITY * color_sign(b0.turn),
                alpha_in,
                beta_in,
                false,
            ) == alpha_beta_loop(
                b0,
                moves@,
                depth as nat,
                k as int,
                score as int,
                alpha as int,
                beta as int,
                any,
            ),
            cut ==> alpha_beta_loop(
                b0,
                moves@,
                depth as nat,
                0,
                -INFINITY * color_sign(b0.turn),
                alpha_in,
                beta_in,
                false,
            ) == (score as int, any),
        decreases moves.len() - k, if cut { 0int } else { 1int },
    {
        let m = moves[k];
        proof {
            lemma_make_undo(*position, m);
        }
        position.make_move(&m);
        if !position.is_check(&turn) {
            let v = alpha_beta(position, depth - 1, alpha, beta);
            any = true;
            if turn == PieceColor::White {
                if v > score {
                    score = v;
                }
                if score > alpha {
                    alpha = score;
                }
            } else {
                if v < score {
                    score = v;
                }
                if score < beta {
                    beta = score;
                }
            }
            if beta <= alpha {
                cut = true;
            }
        }
        position.undo_last_move();
        k += 1;
    }
    if !any {
        let in_check = position.is_check(&turn);
        if in_check {
            if turn == PieceColor::White {
                -MATE_SCORE
            } else {
                MATE_SCORE
            }
        } else {
            0
        }
    } else {
        score
    }
}

/// Whether score `v` is a mate delivered by colour `c`.
pub open spec fn mates_for(c: PieceColor, v: int) -> bool {
    (c == PieceColor::White && v == MATE_SCORE) || (c == PieceColor::Black && v == -MATE_SCORE)
}

/// Whether `v` beats `best` for colour `c`: higher for White, lower for Black.
pub open spec fn improves(c: PieceColor, v: int, best: int) -> bool {
    (c == PieceColor::White && v > best) || (c == PieceColor::Black && v < best)
}

/// The root loop of `best_move_at_depth` from the `k`-th move on: each
/// legal move is scored by a full-window search of its child; a mating move
/// is taken at once, otherwise the first move with the best score.
pub open spec fn best_move_loop(
    b: Board,
    ms: Seq<Move>,
    depth: nat,
    k: int,
    best: Option<Move>,
    best_score: int,
) -> Option<Move>
    decreases ms.len() - k,
{
    if k >= ms.len() || k < 0 {
        best
    } else if !legal_after(b, ms[k]) {
        best_move_loop(b, ms, depth, k + 1, best, best_score)
    } else {
        let v = alpha_beta_value(apply_move(b, ms[k]), (depth - 1) as nat, -INFINITY, INFINITY as int);
        if mates_for(b.turn, v) {
            Some(ms[k])
        } else if best.is_none() || improves(b.turn, v, best_score) {
            best_move_loop(b, ms, depth, k + 1, Some(ms[k]), v)
        } else {
            best_move_loop(b, ms, depth, k + 1, best, best_score)
        }
    }
}

/// The move that a search of `depth` plies picks on `b`; `None` when the
/// side to move has no legal move.
pub open spec fn best_move_choice(b: Board, depth: nat) -> Option<Move> {
    best_move_loop(b, pseudo_legal_moves(b, b.turn), depth, 0, None, 0)
}

/// Searches `depth` plies and returns the best move for the side to move;
/// the position is left as it was.
pub fn best_move_at_depth(position: &mut Position, depth: usize) -> (r: Option<Move>)
    requires
        old(position).wf(),
        depth >= 1,
    ensures
        r == best_move_choice(old(position).board, depth as nat),
        final(position).board == old(position).board,
        final(position).history@ == old(position).history@,
        final(position).played@ == old(position).played@,
        final(position).wf(),
        final(position).tables == old(position).tables,
        final(position).halfmove_clock == old(position).halfmove_clock,
        final(position).number_of_move == old(position).number_of_move,
{
    let ghost b0 = position.board;
    let ghost h0 = position.history@;
    let ghost p0 = position.played@;
    let ghost t0 = position.tables;
    let turn = position.get_turn();
    let moves = generate_pseudo_legal_moves(position, &turn);
    proof {
        lemma_pseudo_legal_moves_ok(b0);
    }
    let mut best: Option<Move> = None;
    let mut best_score: i32 = 0;
    let mut done = false;
    let mut k: usize = 0;
    while k < moves.len() && !done
        invariant
            depth >= 1,
            k <= moves.len(),
            moves@ == pseudo_legal_moves(b0, b0.turn),
            turn == b0.turn,
            turn != PieceColor::NoColor,
            position.wf(),
            position.board == b0,
            position.history@ == h0,
            position.played@ == p0,
            position.tables == t0,
            position.halfmove_clock == old(position).halfmove_clock,
            position.number_of_move == old(position).number_of_move,
            forall|j: int| 0 <= j < moves@.len() ==> move_ok(b0, #[trigger] moves@[j]),
            !done ==> best_move_choice(b0, depth as nat) == best_move_loop(
                b0,
                moves@,
                depth as nat,
                k as int,
                best,
                best_score as int,
            ),
            done ==> best_move_choice(b0, depth as nat) == best,
        decreases moves.len() - k, if done { 0int } else { 1int },
    {
        let m = moves[k];
        proof {
            lemma_make_undo(*position, m);
        }
        position.make_move(&m);
        if !position.is_check(&turn) {
            let v = alpha_beta(position, depth - 1, -INFINITY, INFINITY);
            if (turn == PieceColor::White && v == MATE_SCORE) || (turn == PieceColor::Black && v
                == -MATE_SCORE) {
                best = Some(m);
                done = true;
            } else if best.is_none() || (turn == PieceColor::White && v > best_score) || (turn
                == PieceColor::Black && v < best_score) {
                best = Some(m);
                best_score = v;
            }
        }
        position.undo_last_move();
        k += 1;
    }
    best
}

/// The move that the engine plays: a search of `SEARCH_DEPTH` plies.
pub fn best_move(position: &mut Position) -> (r: Option<Move>)
    requires
        old(position).wf(),
    ensures
        r == best_move_choice(old(position).board, SEARCH_DEPTH as nat),
        final(position).board == old(position).board,
        final(position).history@ == old(position).history@,
        final(position).played@ == old(position).played@,
        final(position).wf(),
        final(position).tables == old(position).tables,
        final(position).halfmove_clock == old(position).halfmove_clock,
        final(position).number_of_move == old(position).number_of_move,
{
    best_move_at_depth(position, SEARCH_DEPTH)
}

/// The engine's choice depends on the board alone: equal boards get the
/// same move.
pub proof fn lemma_best_move_deterministic(p: Board, q: Board, depth: nat)
    requires
        p == q,
    ensures
        best_move_choice(p, depth) == best_move_choice(q, depth),
{
}

/// A search of depth 0 is the static evaluation.
pub proof fn lemma_depth_zero_is_evaluation(b: Board, alpha: int, beta: int)
    ensures
        alpha_beta_value(b, 0, alpha, beta) == evaluation(b),
{
}

proof fn lemma_loop_without_legal_move(
    b: Board,
    ms: Seq<Move>,
    depth: nat,
    k: int,
    score: int,
    alpha: int,
    beta: int,
    any: bool,
)
    requires
        0 <= k,
        forall|j: int| k <= j < ms.len() ==> !legal_after(b, #[trigger] ms[j]),
    ensures
        alpha_beta_loop(b, ms, depth, k, score, alpha, beta, any) == (score, any),
    decreases ms.len() - k,
{
    if depth > 0 && k < ms.len() {
        lemma_loop_without_legal_move(b, ms, depth, k + 1, score, alpha, beta, any);
    }
}

proof fn lemma_root_without_legal_move(
    b: Board,
    ms: Seq<Move>,
    depth: nat,
    k: int,
    best: Option<Move>,
    best_score: int,
)
    requires
        0 <= k,
        forall|j: int| k <= j < ms.len() ==> !legal_after(b, #[trigger] ms[j]),
    ensures
        best_move_loop(b, ms, depth, k, best, best_score) == best,
    decreases ms.len() - k,
{
    if k < ms.len() {
        lemma_root_without_legal_move(b, ms, depth, k + 1, best, best_score);
    }
}

/// A side without a legal move scores as mated when in check and as a
/// draw otherwise, and the engine has no move to play.
pub proof fn lemma_no_legal_move(b: Board, depth: nat, alpha: int, beta: int)
    requires
        depth > 0,
        forall|k: int|
            0 <= k < pseudo_legal_moves(b, b.turn).len() ==> !legal_after(
                b,
                #[trigger] pseudo_legal_moves(b, b.turn)[k],
            ),
    ensures
        alpha_beta_value(b, depth, alpha, beta) == terminal_score(b),
        b.in_check(b.turn) ==> alpha_beta_value(b, depth, alpha, beta) == -MATE_SCORE
            * color_sign(b.turn),
        !b.in_check(b.turn) ==> alpha_beta_value(b, depth, alpha, beta) == 0,
        best_move_choice(b, depth) == None::<Move>,
{
    let ms = pseudo_legal_moves(b, b.turn);
    lemma_loop_without_legal_move(b, ms, depth, 0, -INFINITY * color_sign(b.turn), alpha, beta, false);
    lemma_root_without_legal_move(b, ms, depth, 0, None, 0);
}

/// The minimax value of `b` at `depth` plies: White takes the largest
/// child value, Black the smallest; a side without a legal move gets its
/// terminal score.
pub open spec fn minimax_value(b: Board, depth: nat) -> int
    decreases depth + 1, 0nat,
{
    if depth == 0 {
        evaluation(b)
    } else {
        let ms = pseudo_legal_moves(b, b.turn);
        let (v, any) = minimax_loop(b, ms, depth, 0, -INFINITY * color_sign(b.turn), false);
        if any {
            v
        } else {
            terminal_score(b)
        }
    }
}

/// The best child value among the legal moves of `ms` from index `k` on,
/// starting from `best`, and whether a legal move was seen.
pub open spec fn minimax_loop(b: Board, ms: Seq<Move>, depth: nat, k: int, best: int, any: bool) -> (
    int,
    bool,
)
    decreases depth, ms.len() - k,
{
    if depth == 0 || k >= ms.len() || k < 0 {
        (best, any)
    } else if !legal_after(b, ms[k]) {
        minimax_loop(b, ms, depth, k + 1, best, any)
    } else {
        let v = minimax_value(apply_move(b, ms[k]), (depth - 1) as nat);
        if b.turn == PieceColor::White {
            minimax_loop(b, ms, depth, k + 1, max(best, v), true)
        } else {
            minimax_loop(b, ms, depth, k + 1, min(best, v), true)
        }
    }
}

/// The minimax loop's result is at least as good for the mover as where it
/// started and as every legal child from index `k` on.
proof fn lemma_minimax_loop_bound(b: Board, ms: Seq<Move>, depth: nat, k: int, best: int, any: bool, j: int)
    requires
        depth > 0,
        0 <= k,
        b.turn != PieceColor::NoColor,
    ensures
        b.turn == PieceColor::White ==> minimax_loop(b, ms, depth, k, best, any).0 >= best,
        b.turn == PieceColor::Black ==> minimax_loop(b, ms, depth, k, best, any).0 <= best,
        minimax_loop(b, ms, depth, k, best, any).1 == (any || exists|i: int|
            k <= i < ms.len() && legal_after(b, #[trigger] ms[i])),
        k <= j < ms.len() && legal_after(b, ms[j]) ==> {
            let v = minimax_value(apply_move(b, ms[j]), (depth - 1) as nat);
            &&& b.turn == PieceColor::White ==> minimax_loop(b, ms, depth, k, best, any).0 >= v
            &&& b.turn == PieceColor::Black ==> minimax_loop(b, ms, depth, k, best, any).0 <= v
        },
    decreases ms.len() - k,
{
    if k < ms.len() {
        if !legal_after(b, ms[k]) {
            lemma_minimax_loop_bound(b, ms, depth, k + 1, best, any, j);
        } else {
            let v = minimax_value(apply_move(b, ms[k]), (depth - 1) as nat);
            if b.turn == PieceColor::White {
                lemma_minimax_loop_bound(b, ms, depth, k + 1, max(best, v), true, j);
            } else {
                lemma_minimax_loop_bound(b, ms, depth, k + 1, min(best, v), true, j);
            }
        }
    }
}

/// Fail-soft alpha-beta: a result strictly inside the window is the
/// minimax value, one at or below `alpha` bounds it from above, one at or
/// above `beta` bounds it from below.
pub proof fn lemma_alpha_beta_sound(b: Board, depth: nat, alpha: int, beta: int)
    requires
        b.turn != PieceColor::NoColor,
        alpha < beta,
        -INFINITY <= alpha,
        beta <= INFINITY,
    ensures
        ({
            let r = alpha_beta_value(b, depth, alpha, beta);
            let v = minimax_value(b, depth);
            &&& alpha < r < beta ==> r == v
            &&& r <= alpha ==> v <= r
            &&& r >= beta ==> v >= r
        }),
    decreases depth + 1, 0nat,
{
    if depth > 0 {
        let ms = pseudo_legal_moves(b, b.turn);
        let init = -INFINITY * color_sign(b.turn);
        lemma_alpha_beta_loop_sound(b, ms, depth, 0, init, alpha, beta, false, init, alpha, beta);
        lemma_minimax_loop_bound(b, ms, depth, 0, init, false, 0);
        lemma_alpha_beta_loop_any(b, ms, depth, 0, init, alpha, beta, false);
    }
}

proof fn lemma_alpha_beta_loop_any(
    b: Board,
    ms: Seq<Move>,
    depth: nat,
    k: int,
    score: int,
    alpha: int,
    beta: int,
    any: bool,
)
    requires
        depth > 0,
        0 <= k,
    ensures
        alpha_beta_loop(b, ms, depth, k, score, alpha, beta, any).1 == (any || exists|i: int|
            k <= i < ms.len() && legal_after(b, #[trigger] ms[i])),
    decreases ms.len() - k,
{
    if k < ms.len() {
        if !legal_after(b, ms[k]) {
            lemma_alpha_beta_loop_any(b, ms, depth, k + 1, score, alpha, beta, any);
        } else {
            let v = alpha_beta_value(apply_move(b, ms[k]), (depth - 1) as nat, alpha, beta);
            if b.turn == PieceColor::White {
                let s = max(score, v);
                let a = max(alpha, s);
                if beta > a {
                    lemma_alpha_beta_loop_any(b, ms, depth, k + 1, s, a, beta, true);
                }
            } else {
                let s = min(score, v);
                let bt = min(beta, s);
                if bt > alpha {
                    lemma_alpha_beta_loop_any(b, ms, depth, k + 1, s, alpha, bt, true);
                }
            }
        }
    }
}

/// The move loop under alpha-beta against the minimax loop, from index `k`
/// on, with the window (`alpha0`, `beta0`) of the node.
proof fn lemma_alpha_beta_loop_sound(
    b: Board,
    ms: Seq<Move>,
    depth: nat,
    k: int,
    score: int,
    alpha: int,
    beta: int,
    any: bool,
    best: int,
    alpha0: int,
    beta0: int,
)
    requires
        depth > 0,
        0 <= k,
        b.turn != PieceColor::NoColor,
        -INFINITY <= alpha0 < beta0 <= INFINITY,
        b.turn == PieceColor::White ==> {
            &&& beta == beta0
            &&& alpha == max(alpha0, score)
            &&& alpha < beta
            &&& best <= score
            &&& score > alpha0 ==> best == score
        },
        b.turn == PieceColor::Black ==> {
            &&& alpha == alpha0
            &&& beta == min(beta0, score)
            &&& alpha < beta
            &&& best >= score
            &&& score < beta0 ==> best == score
        },
    ensures
        ({
            let r = alpha_beta_loop(b, ms, depth, k, score, alpha, beta, any).0;
            let v = minimax_loop(b, ms, depth, k, best, any).0;
            &&& alpha0 < r < beta0 ==> r == v
            &&& r <= alpha0 ==> v <= r
            &&& r >= beta0 ==> v >= r
        }),
    decreases depth, ms.len() - k,
{
    if k < ms.len() {
        if !legal_after(b, ms[k]) {
            lemma_alpha_beta_loop_sound(b, ms, depth, k + 1, score, alpha, beta, any, best, alpha0, beta0);
        } else {
            let child = apply_move(b, ms[k]);
            let r = alpha_beta_value(child, (depth - 1) as nat, alpha, beta);
            let v = minimax_value(child, (depth - 1) as nat);
            lemma_alpha_beta_sound(child, (depth - 1) as nat, alpha, beta);
            if b.turn == PieceColor::White {
                let s = max(score, r);
                let a = max(alpha, s);
                if beta <= a {
                    lemma_minimax_loop_bound(b, ms, depth, k, best, any, k);
                } else {
                    lemma_alpha_beta_loop_sound(b, ms, depth, k + 1, s, a, beta, true, max(best, v), alpha0, beta0);
                }
            } else {
                let s = min(score, r);
                let bt = min(beta, s);
                if bt <= alpha {
                    lemma_minimax_loop_bound(b, ms, depth, k, best, any, k);
                } else {
                    lemma_alpha_beta_loop_sound(b, ms, depth, k + 1, s, alpha, bt, true, min(best, v), alpha0, beta0);
                }
            }
        }
    }
}

proof fn lemma_minimax_range(b: Board, depth: nat)
    requires
        b.turn != PieceColor::NoColor,
    ensures
        -10000000 <= minimax_value(b, depth) <= 10000000,
    decreases depth + 1, 0nat,
{
    if depth == 0 {
        lemma_evaluation_bounds(b);
    } else {
        let ms = pseudo_legal_moves(b, b.turn);
        lemma_minimax_loop_range(b, ms, depth, 0, -INFINITY * color_sign(b.turn), false);
    }
}

proof fn lemma_minimax_loop_range(b: Board, ms: Seq<Move>, depth: nat, k: int, best: int, any: bool)
    requires
        depth > 0,
        0 <= k,
        b.turn != PieceColor::NoColor,
        any ==> -10000000 <= best <= 10000000,
        !any ==> best == -INFINITY * color_sign(b.turn),
    ensures
        minimax_loop(b, ms, depth, k, best, any).1 ==> -10000000 <= minimax_loop(
            b,
            ms,
            depth,
            k,
            best,
            any,
        ).0 <= 10000000,
    decreases depth, ms.len() - k,
{
    if k < ms.len() {
        if !legal_after(b, ms[k]) {
            lemma_minimax_loop_range(b, ms, depth, k + 1, best, any);
        } else {
            let child = apply_move(b, ms[k]);
            lemma_apply_turn(b, ms[k]);
            lemma_minimax_range(child, (depth - 1) as nat);
            let v = minimax_value(child, (depth - 1) as nat);
            if b.turn == PieceColor::White {
                lemma_minimax_loop_range(b, ms, depth, k + 1, max(best, v), true);
            } else {
                lemma_minimax_loop_range(b, ms, depth, k + 1, min(best, v), true);
            }
        }
    }
}

proof fn lemma_apply_turn(b: Board, m: Move)
    requires
        b.turn != PieceColor::NoColor,
    ensures
        apply_move(b, m).turn != PieceColor::NoColor,
{
}

/// A search with the full window returns exactly the minimax value; this
/// is how `best_move` scores each legal move.
pub proof fn lemma_full_window_is_minimax(b: Board, depth: nat)
    requires
        b.turn != PieceColor::NoColor,
    ensures
        alpha_beta_value(b, depth, -INFINITY as int, INFINITY as int) == minimax_value(b, depth),
{
    lemma_alpha_beta_sound(b, depth, -INFINITY as int, INFINITY as int);
    lemma_minimax_range(b, depth);
}

/// The side to move is mated: in check with no legal move.
pub open spec fn checkmated(c: Board) -> bool {
    c.in_check(c.turn) && forall|i: int|
        0 <= i < pseudo_legal_moves(c, c.turn).len() ==> !legal_after(
            c,
            #[trigger] pseudo_legal_moves(c, c.turn)[i],
        )
}

/// A position reached by legal moves from a sound start: well-formed, one
/// king per side, and the side not to move not in check.
pub open spec fn reachable_shape(b: Board) -> bool {
    b.wf() && one_king_each(b) && !b.in_check(opponent(b.turn))
}

proof fn lemma_child_shape(b: Board, i: int)
    requires
        reachable_shape(b),
        0 <= i < pseudo_legal_moves(b, b.turn).len(),
        legal_after(b, pseudo_legal_moves(b, b.turn)[i]),
    ensures
        reachable_shape(apply_move(b, pseudo_legal_moves(b, b.turn)[i])),
{
    lemma_pseudo_legal_moves_ok(b);
    lemma_apply_wf(b, pseudo_legal_moves(b, b.turn)[i]);
    lemma_legal_move_keeps_kings(b, i);
}

proof fn lemma_loop_within(
    b: Board,
    ms: Seq<Move>,
    depth: nat,
    k: int,
    best: int,
    any: bool,
    lo: int,
    hi: int,
)
    requires
        depth > 0,
        0 <= k,
        b.turn != PieceColor::NoColor,
        any ==> lo <= best <= hi,
        !any ==> best == -INFINITY * color_sign(b.turn),
        -INFINITY <= lo,
        hi <= INFINITY,
        forall|i: int|
            k <= i < ms.len() && legal_after(b, #[trigger] ms[i]) ==> lo <= minimax_value(
                apply_move(b, ms[i]),
                (depth - 1) as nat,
            ) <= hi,
    ensures
        minimax_loop(b, ms, depth, k, best, any).1 ==> lo <= minimax_loop(
            b,
            ms,
            depth,
            k,
            best,
            any,
        ).0 <= hi,
    decreases ms.len() - k,
{
    if k < ms.len() {
        if !legal_after(b, ms[k]) {
            lemma_loop_within(b, ms, depth, k + 1, best, any, lo, hi);
        } else {
            let v = minimax_value(apply_move(b, ms[k]), (depth - 1) as nat);
            assert(lo <= v <= hi);
            if b.turn == PieceColor::White {
                assert(!any ==> best == -INFINITY);
                lemma_loop_within(b, ms, depth, k + 1, max(best, v), true, lo, hi);
            } else {
                assert(!any ==> best == INFINITY);
                lemma_loop_within(b, ms, depth, k + 1, min(best, v), true, lo, hi);
            }
        }
    }
}

/// One ply deep, a reachable position scores its terminal score when it
/// has no legal move, and stays far from the mate scores otherwise.
proof fn lemma_depth_one_value(c: Board)
    requires
        reachable_shape(c),
    ensures
        checkmated(c) ==> minimax_value(c, 1) == -MATE_SCORE * color_sign(c.turn),
        !checkmated(c) ==> -200000 <= minimax_value(c, 1) <= 200000,
{
    let ms = pseudo_legal_moves(c, c.turn);
    let init = -INFINITY * color_sign(c.turn);
    lemma_minimax_loop_bound(c, ms, 1, 0, init, false, 0);
    assert forall|i: int| 0 <= i < ms.len() && legal_after(c, #[trigger] ms[i]) implies -200000
        <= minimax_value(apply_move(c, ms[i]), 0) <= 200000 by {
        lemma_child_shape(c, i);
        let g = apply_move(c, ms[i]);
        let (w, bl, kk) = (g.white_board, g.black_board, g.kings_board);
        assert(w & kk == kk & w && bl & kk == kk & bl) by (bit_vector);
        lemma_evaluation_below_mate(g);
    }
    lemma_loop_within(c, ms, 1, 0, init, false, -200000, 200000);
}

/// Whether the child of legal move `ms[i]` is mated.
pub open spec fn mates_in_one(b: Board, m: Move) -> bool {
    legal_after(b, m) && checkmated(apply_move(b, m))
}

proof fn lemma_root_finds_mate(b: Board, ms: Seq<Move>, k: int, best: Option<Move>, best_score: int, j: int)
    requires
        reachable_shape(b),
        ms == pseudo_legal_moves(b, b.turn),
        0 <= k <= j < ms.len(),
        mates_in_one(b, ms[j]),
    ensures
        best_move_loop(b, ms, 2, k, best, best_score) matches Some(m) && exists|i: int|
            k <= i < ms.len() && #[trigger] ms[i] == m && mates_in_one(b, m),
    decreases ms.len() - k,
{
    let child = apply_move(b, ms[k]);
    if legal_after(b, ms[k]) {
        lemma_child_shape(b, k);
        lemma_full_window_is_minimax(child, 1);
        lemma_depth_one_value(child);
        assert(child.turn == opponent(b.turn));
        let v = alpha_beta_value(child, 1, -INFINITY, INFINITY as int);
        if mates_for(b.turn, v) {
            assert(checkmated(child));
        } else {
            assert(k != j);
            if best.is_none() || improves(b.turn, v, best_score) {
                lemma_root_finds_mate(b, ms, k + 1, Some(ms[k]), v, j);
            } else {
                lemma_root_finds_mate(b, ms, k + 1, best, best_score, j);
            }
        }
    } else {
        lemma_root_finds_mate(b, ms, k + 1, best, best_score, j);
    }
}

proof fn lemma_children_within_mate(b: Board)
    requires
        reachable_shape(b),
    ensures
        forall|i: int|
            0 <= i < pseudo_legal_moves(b, b.turn).len() && legal_after(
                b,
                #[trigger] pseudo_legal_moves(b, b.turn)[i],
            ) ==> -MATE_SCORE <= minimax_value(
                apply_move(b, pseudo_legal_moves(b, b.turn)[i]),
                1,
            ) <= MATE_SCORE,
{
    let ms = pseudo_legal_moves(b, b.turn);
    assert forall|i: int| 0 <= i < ms.len() && legal_after(b, #[trigger] ms[i]) implies -MATE_SCORE
        <= minimax_value(apply_move(b, ms[i]), 1) <= MATE_SCORE by {
        lemma_child_shape(b, i);
        lemma_depth_one_value(apply_move(b, ms[i]));
    }
}

/// With a mate in one available, a two-ply search scores the mate for the
/// side to move.
pub proof fn lemma_mate_in_one_value(b: Board, j: int)
    requires
        reachable_shape(b),
        0 <= j < pseudo_legal_moves(b, b.turn).len(),
        mates_in_one(b, pseudo_legal_moves(b, b.turn)[j]),
    ensures
        alpha_beta_value(b, 2, -INFINITY as int, INFINITY as int) == MATE_SCORE * color_sign(b.turn),
{
    let ms = pseudo_legal_moves(b, b.turn);
    let init = -INFINITY * color_sign(b.turn);
    lemma_full_window_is_minimax(b, 2);
    lemma_children_within_mate(b);
    lemma_child_shape(b, j);
    lemma_depth_one_value(apply_move(b, ms[j]));
    lemma_minimax_loop_bound(b, ms, 2, 0, init, false, j);
    if b.turn == PieceColor::White {
        lemma_loop_within(b, ms, 2, 0, init, false, -MATE_SCORE as int, MATE_SCORE as int);
    } else {
        lemma_loop_within(b, ms, 2, 0, init, false, -MATE_SCORE as int, MATE_SCORE as int);
    }
}

/// With a mate in one available, `best_move` at two plies picks a legal
/// move that mates.
pub proof fn lemma_mate_in_one_move(b: Board, j: int)
    requires
        reachable_shape(b),
        0 <= j < pseudo_legal_moves(b, b.turn).len(),
        mates_in_one(b, pseudo_legal_moves(b, b.turn)[j]),
    ensures
        best_move_choice(b, 2) matches Some(m) && mates_in_one(b, m) && exists|i: int|
            0 <= i < pseudo_legal_moves(b, b.turn).len() && #[trigger] pseudo_legal_moves(
                b,
                b.turn,
            )[i] == m,
{
    lemma_root_finds_mate(b, pseudo_legal_moves(b, b.turn), 0, None, 0, j);
}

} // verus!
