//! Static evaluation from White's point of view: material plus
//! piece-square tables, in centipawns.

use crate::bits::{count_set_bit, lemma_popcount_le_64, popcount};
use crate::board::Board;
use crate::position::Position;
use crate::utils::{color_sign, material_value, Piece, PieceColor, PieceType};
use vstd::prelude::*;

verus! {

/// Piece-square tables, indexed by `rank * 8 + file` with rank 0 the eighth
/// rank as seen by White.
pub open spec fn pawn_table() -> Seq<int> {
    seq![
        0, 0, 0, 0, 0, 0, 0, 0,
        50, 50, 50, 50, 50, 50, 50, 50,
        10, 10, 20, 30, 30, 20, 10, 10,
        5, 5, 10, 25, 25, 10, 5, 5,
        0, 0, 0, 20, 20, 0, 0, 0,
        5, -5, -10, 0, 0, -10, -5, 5,
        5, 10, 10, -20, -20, 10, 10, 5,
        0, 0, 0, 0, 0, 0, 0, 0,
    ]
}

pub open spec fn knight_table() -> Seq<int> {
    seq![
        -50, -40, -30, -30, -30, -30, -40, -50,
        -40, -20, 0, 0, 0, 0, -20, -40,
        -30, 0, 10, 15, 15, 10, 0, -30,
        -30, 5, 15, 20, 20, 15, 5, -30,
        -30, 0, 15, 20, 20, 15, 0, -30,
        -30, 5, 10, 15, 15, 10, 5, -30,
        -40, -20, 0, 5, 5, 0, -20, -40,
        -50, -40, -30, -30, -30, -30, -40, -50,
    ]
}

pub open spec fn bishop_table() -> Seq<int> {
    seq![
        -20, -10, -10, -10, -10, -10, -10, -20,
        -10, 0, 0, 0, 0, 0, 0, -10,
        -10, 0, 5, 10, 10, 5, 0, -10,
        -10, 5, 5, 10, 10, 5, 5, -10,
        -10, 0, 10, 10, 10, 10, 0, -10,
        -10, 10, 10, 10, 10, 10, 10, -10,
        -10, 5, 0, 0, 0, 0, 5, -10,
        -20, -10, -10, -10, -10, -10, -10, -20,
    ]
}

pub open spec fn rook_table() -> Seq<int> {
    seq![
        0, 0, 0, 0, 0, 0, 0, 0,
        5, 10, 10, 10, 10, 10, 10, 5,
        -5, 0, 0, 0, 0, 0, 0, -5,
        -5, 0, 0, 0, 0, 0, 0, -5,
        -5, 0, 0, 0, 0, 0, 0, -5,
        -5, 0, 0, 0, 0, 0, 0, -5,
        -5, 0, 0, 0, 0, 0, 0, -5,
        0, 0, 0, 50, 50, 0, 0, 0,
    ]
}

pub open spec fn queen_table() -> Seq<int> {
    seq![
        -20, -10, -10, -5, -5, -10, -10, -20,
        -10, 0, 0, 0, 0, 0, 0, -10,
        -10, 0, 5, 5, 5, 5, 0, -10,
        -5, 0, 5, 5, 5, 5, 0, -5,
        0, 0, 5, 5, 5, 5, 0, -5,
        -10, 5, 5, 5, 5, 5, 0, -10,
        -10, 0, 5, 0, 0, 0, 0, -10,
        -20, -10, -10, -5, -5, -10, -10, -20,
    ]
}

pub open spec fn king_table() -> Seq<int> {
    seq![
        -30, -40, -40, -50, -50, -40, -40, -30,
        -30, -40, -40, -50, -50, -40, -40, -30,
        -30, -40, -40, -50, -50, -40, -40, -30,
        -30, -40, -40, -50, -50, -40, -40, -30,
        -20, -30, -30, -40, -40, -30, -30, -20,
        -10, -20, -20, -20, -20, -20, -20, -10,
        20, 20, 0, 0, 0, 0, 20, 20,
        20, 30, 10, 0, 0, 10, 30, 20,
    ]
}

pub open spec fn pst_table(t: PieceType) -> Seq<int> {
    match t {
        PieceType::Pawn => pawn_table(),
        PieceType::Knight => knight_table(),
        PieceType::Bishop => bishop_table(),
        PieceType::Rook => rook_table(),
        PieceType::Queen => queen_table(),
        PieceType::King => king_table(),
        PieceType::NoPiece => seq![],
    }
}

/// Index of square `s` in a piece-square table for a piece of colour `c`:
/// White's ranks are mirrored.
pub open spec fn pst_index(c: PieceColor, s: u64) -> int {
    let rank = if c == PieceColor::White {
        7 - (s / 8) as int
    } else {
        (s / 8) as int
    };
    rank * 8 + (s % 8) as int
}

/// The piece-square bonus of `piece` on `s`, signed by its colour.
pub open spec fn pst_value(piece: Piece, s: u64) -> int {
    if piece.piece_type == PieceType::NoPiece {
        0
    } else {
        pst_table(piece.piece_type)[pst_index(piece.color, s)] * color_sign(piece.color)
    }
}

/// Piece-square bonuses of the pieces from square `i` upwards.
pub open spec fn pst_sum(b: Board, i: u64) -> int
    decreases 64 - i,
{
    if i >= 64 {
        0
    } else {
        pst_value(b.piece_at(i), i) + pst_sum(b, (i + 1) as u64)
    }
}

/// Material of type `t`: its value times White's count minus Black's.
pub open spec fn material_of(b: Board, t: PieceType) -> int {
    material_value(t) * (popcount(b.white_board & b.type_plane(t)) - popcount(
        b.black_board & b.type_plane(t),
    ))
}

pub open spec fn material(b: Board) -> int {
    material_of(b, PieceType::Pawn) + material_of(b, PieceType::Knight) + material_of(
        b,
        PieceType::Bishop,
    ) + material_of(b, PieceType::Rook) + material_of(b, PieceType::Queen) + material_of(
        b,
        PieceType::King,
    )
}

/// The static score of `b`, positive when White stands better.
pub open spec fn evaluation(b: Board) -> int {
    material(b) + pst_sum(b, 0)
}

proof fn lemma_pst_bounds(t: PieceType, k: int)
    requires
        t != PieceType::NoPiece,
        0 <= k < 64,
    ensures
        -50 <= pst_table(t)[k] <= 50,
{
    assert(forall|j: int| 0 <= j < 64 ==> -50 <= #[trigger] pawn_table()[j] <= 50);
    assert(forall|j: int| 0 <= j < 64 ==> -50 <= #[trigger] knight_table()[j] <= 50);
    assert(forall|j: int| 0 <= j < 64 ==> -50 <= #[trigger] bishop_table()[j] <= 50);
    assert(forall|j: int| 0 <= j < 64 ==> -50 <= #[trigger] rook_table()[j] <= 50);
    assert(forall|j: int| 0 <= j < 64 ==> -50 <= #[trigger] queen_table()[j] <= 50);
    assert(forall|j: int| 0 <= j < 64 ==> -50 <= #[trigger] king_table()[j] <= 50);
}

fn table_entry(t: PieceType, i: usize) -> (r: i32)
    requires
        i < 64,
        t != PieceType::NoPiece,
    ensures
        r == pst_table(t)[i as int],
{
    match t {
        PieceType::Pawn => {
            let t: [i32; 64] = [
            0, 0, 0, 0, 0, 0, 0, 0,
            50, 50, 50, 50, 50, 50, 50, 50,
            10, 10, 20, 30, 30, 20, 10, 10,
            5, 5, 10, 25, 25, 10, 5, 5,
            0, 0, 0, 20, 20, 0, 0, 0,
            5, -5, -10, 0, 0, -10, -5, 5,
            5, 10, 10, -20, -20, 10, 10, 5,
            0, 0, 0, 0, 0, 0, 0, 0,
            ];
            assert(t@.map_values(|x: i32| x as int) =~= pawn_table());
            t[i]
        },
        PieceType::Knight => {
            let t: [i32; 64] = [
            -50, -40, -30, -30, -30, -30, -40, -50,
            -40, -20, 0, 0, 0, 0, -20, -40,
            -30, 0, 10, 15, 15, 10, 0, -30,
            -30, 5, 15, 20, 20, 15, 5, -30,
            -30, 0, 15, 20, 20, 15, 0, -30,
            -30, 5, 10, 15, 15, 10, 5, -30,
            -40, -20, 0, 5, 5, 0, -20, -40,
            -50, -40, -30, -30, -30, -30, -40, -50,
            ];
            assert(t@.map_values(|x: i32| x as int) =~= knight_table());
            t[i]
        },
        PieceType::Bishop => {
            let t: [i32; 64] = [
            -20, -10, -10, -10, -10, -10, -10, -20,
            -10, 0, 0, 0, 0, 0, 0, -10,
            -10, 0, 5, 10, 10, 5, 0, -10,
            -10, 5, 5, 10, 10, 5, 5, -10,
            -10, 0, 10, 10, 10, 10, 0, -10,
            -10, 10, 10, 10, 10, 10, 10, -10,
            -10, 5, 0, 0, 0, 0, 5, -10,
            -20, -10, -10, -10, -10, -10, -10, -20,
            ];
            assert(t@.map_values(|x: i32| x as int) =~= bishop_table());
            t[i]
        },
        PieceType::Rook => {
            let t: [i32; 64] = [
            0, 0, 0, 0, 0, 0, 0, 0,
            5, 10, 10, 10, 10, 10, 10, 5,
            -5, 0, 0, 0, 0, 0, 0, -5,
            -5, 0, 0, 0, 0, 0, 0, -5,
            -5, 0, 0, 0, 0, 0, 0, -5,
            -5, 0, 0, 0, 0, 0, 0, -5,
            -5, 0, 0, 0, 0, 0, 0, -5,
            0, 0, 0, 50, 50, 0, 0, 0,
            ];
            assert(t@.map_values(|x: i32| x as int) =~= rook_table());
            t[i]
        },
        PieceType::Queen => {
            let t: [i32; 64] = [
            -20, -10, -10, -5, -5, -10, -10, -20,
            -10, 0, 0, 0, 0, 0, 0, -10,
            -10, 0, 5, 5, 5, 5, 0, -10,
            -5, 0, 5, 5, 5, 5, 0, -5,
            0, 0, 5, 5, 5, 5, 0, -5,
            -10, 5, 5, 5, 5, 5, 0, -10,
            -10, 0, 5, 0, 0, 0, 0, -10,
            -20, -10, -10, -5, -5, -10, -10, -20,
            ];
            assert(t@.map_values(|x: i32| x as int) =~= queen_table());
            t[i]
        },
        PieceType::King => {
            let t: [i32; 64] = [
            -30, -40, -40, -50, -50, -40, -40, -30,
            -30, -40, -40, -50, -50, -40, -40, -30,
            -30, -40, -40, -50, -50, -40, -40, -30,
            -30, -40, -40, -50, -50, -40, -40, -30,
            -20, -30, -30, -40, -40, -30, -30, -20,
            -10, -20, -20, -20, -20, -20, -20, -10,
            20, 20, 0, 0, 0, 0, 20, 20,
            20, 30, 10, 0, 0, 10, 30, 20,
            ];
            assert(t@.map_values(|x: i32| x as int) =~= king_table());
            t[i]
        },
        PieceType::NoPiece => 0,
    }
}

/// The piece-square bonus of `piece` on square `index`, signed by its colour.
pub fn get_pst_value(piece: &Piece, index: &i8) -> (r: i32)
    requires
        0 <= *index < 64,
    ensures
        r == pst_value(*piece, *index as u64),
        -50 <= r <= 50,
{
    if piece.piece_type == PieceType::NoPiece {
        return 0;
    }
    let s = *index as u64;
    let rank = if piece.color == PieceColor::White {
        7 - s / 8
    } else {
        s / 8
    };
    let i = (rank * 8 + s % 8) as usize;
    let v = table_entry(piece.piece_type, i);
    proof {
        lemma_pst_bounds(piece.piece_type, i as int);
    }
    v * piece.color.sign()
}

fn material_of_exec(b: &Board, t: PieceType) -> (r: i32)
    ensures
        r == material_of(*b, t),
        -20000 * 255 <= r <= 20000 * 255,
{
    let plane = b.get_type_plane(t);
    let w = count_set_bit(b.white_board & plane) as i32;
    let k = count_set_bit(b.black_board & plane) as i32;
    let v = t.value();
    assert(-20000 * 255 <= v * (w - k) <= 20000 * 255) by (nonlinear_arith)
        requires
            0 <= v <= 20000,
            0 <= w <= 255,
            0 <= k <= 255,
    ;
    v * (w - k)
}

/// The static score of the position: material of every piece type plus the
/// piece-square bonuses, positive when White stands better.
pub fn evaluate(position: &Position) -> (r: i32)
    ensures
        r == evaluation(position.board),
{
    pst_evaluation(position)
}

fn pst_evaluation(position: &Position) -> (r: i32)
    ensures
        r == evaluation(position.board),
{
    let b = &position.board;
    let mut score: i32 = material_of_exec(b, PieceType::Pawn) + material_of_exec(
        b,
        PieceType::Knight,
    ) + material_of_exec(b, PieceType::Bishop) + material_of_exec(b, PieceType::Rook)
        + material_of_exec(b, PieceType::Queen) + material_of_exec(b, PieceType::King);
    let ghost m = score as int;
    let mut sq: u64 = 0;
    while sq < 64
        invariant
            sq <= 64,
            m == material(*b),
            -6 * 20000 * 255 <= m <= 6 * 20000 * 255,
            score + pst_sum(*b, sq) == evaluation(*b),
            m - 50 * sq <= score <= m + 50 * sq,
        decreases 64 - sq,
    {
        let piece = Piece { color: b.color_at_exec(sq), piece_type: b.type_at_exec(sq) };
        score = score + get_pst_value(&piece, &(sq as i8));
        sq += 1;
    }
    score
}

/// Move-ordering hint: cheap movers and valuable victims first.
pub open spec fn move_order_score(b: Board, source: u64, destination: u64) -> int {
    (match b.type_at(source) {
        PieceType::NoPiece => 0,
        PieceType::Pawn => -10,
        PieceType::Knight => -30,
        PieceType::Bishop => -30,
        PieceType::Rook => -50,
        PieceType::Queen => -90,
        PieceType::King => -100,
    }) + (match b.type_at(destination) {
        PieceType::NoPiece => -50,
        PieceType::Pawn => 10,
        PieceType::Knight => 30,
        PieceType::Bishop => 30,
        PieceType::Rook => 50,
        PieceType::Queen => 90,
        PieceType::King => 100,
    })
}

pub fn evaluate_move(position: &Position, source: &i8, destination: &i8) -> (r: i32)
    requires
        0 <= *source < 64,
        0 <= *destination < 64,
    ensures
        r == move_order_score(position.board, *source as u64, *destination as u64),
{
    let b = &position.board;
    let from: i32 = match b.type_at_exec(*source as u64) {
        PieceType::NoPiece => 0,
        PieceType::Pawn => -10,
        PieceType::Knight => -30,
        PieceType::Bishop => -30,
        PieceType::Rook => -50,
        PieceType::Queen => -90,
        PieceType::King => -100,
    };
    let to: i32 = match b.type_at_exec(*destination as u64) {
        PieceType::NoPiece => -50,
        PieceType::Pawn => 10,
        PieceType::Knight => 30,
        PieceType::Bishop => 30,
        PieceType::Rook => 50,
        PieceType::Queen => 90,
        PieceType::King => 100,
    };
    from + to
}

/// Material of the pieces from square `i` upwards, White positive.
pub open spec fn material_sum(b: Board, i: u64) -> int
    decreases 64 - i,
{
    if i >= 64 {
        0
    } else {
        material_value(b.type_at(i)) * color_sign(b.color_at(i)) + material_sum(b, (i + 1) as u64)
    }
}

/// Material only: each piece's value, positive for White, negative for Black.
pub fn simple_evaluation(position: &Position) -> (r: i32)
    ensures
        r == material_sum(position.board, 0),
{
    let b = &position.board;
    let mut score: i32 = 0;
    let mut sq: u64 = 0;
    while sq < 64
        invariant
            sq <= 64,
            score + material_sum(*b, sq) == material_sum(*b, 0),
            -20000 * sq <= score <= 20000 * sq,
        decreases 64 - sq,
    {
        let t = b.type_at_exec(sq);
        let c = b.color_at_exec(sq);
        let v = t.value() * c.sign();
        assert(-20000 <= v <= 20000) by (nonlinear_arith)
            requires
                v == material_value(t) * color_sign(c),
                0 <= material_value(t) <= 20000,
                -1 <= color_sign(c) <= 1,
        ;
        score = score + v;
        sq += 1;
    }
    score
}

proof fn lemma_pst_sum_bounds(b: Board, i: u64)
    requires
        i <= 64,
    ensures
        -50 * (64 - i) <= pst_sum(b, i) <= 50 * (64 - i),
    decreases 64 - i,
{
    if i < 64 {
        lemma_pst_sum_bounds(b, (i + 1) as u64);
        let p = b.piece_at(i);
        if p.piece_type != PieceType::NoPiece {
            assert(0 <= pst_index(p.color, i) < 64) by (nonlinear_arith)
                requires
                    i < 64,
            ;
            lemma_pst_bounds(p.piece_type, pst_index(p.color, i));
        }
    }
}

proof fn lemma_material_of_bounds(b: Board, t: PieceType)
    ensures
        -20000 * 64 <= material_of(b, t) <= 20000 * 64,
        -material_value(t) * 64 <= material_of(b, t) <= material_value(t) * 64,
{
    let w = popcount(b.white_board & b.type_plane(t));
    let k = popcount(b.black_board & b.type_plane(t));
    lemma_popcount_le_64(b.white_board & b.type_plane(t));
    lemma_popcount_le_64(b.black_board & b.type_plane(t));
    let v = material_value(t);
    assert(-20000 * 64 <= v * (w - k) <= 20000 * 64 && -v * 64 <= v * (w - k) <= v * 64)
        by (nonlinear_arith)
        requires
            0 <= v <= 20000,
            0 <= w <= 64,
            0 <= k <= 64,
    ;
}

/// The static score stays within a few million centipawns.
pub proof fn lemma_evaluation_bounds(b: Board)
    ensures
        -10000000 <= evaluation(b) <= 10000000,
{
    lemma_pst_sum_bounds(b, 0);
    lemma_material_of_bounds(b, PieceType::Pawn);
    lemma_material_of_bounds(b, PieceType::Knight);
    lemma_material_of_bounds(b, PieceType::Bishop);
    lemma_material_of_bounds(b, PieceType::Rook);
    lemma_material_of_bounds(b, PieceType::Queen);
    lemma_material_of_bounds(b, PieceType::King);
}

/// With as many white as black kings, the static score stays far below
/// the mate score.
pub proof fn lemma_evaluation_below_mate(b: Board)
    requires
        popcount(b.white_board & b.kings_board) == popcount(b.black_board & b.kings_board),
    ensures
        -200000 <= evaluation(b) <= 200000,
{
    lemma_pst_sum_bounds(b, 0);
    lemma_material_of_bounds(b, PieceType::Pawn);
    lemma_material_of_bounds(b, PieceType::Knight);
    lemma_material_of_bounds(b, PieceType::Bishop);
    lemma_material_of_bounds(b, PieceType::Rook);
    lemma_material_of_bounds(b, PieceType::Queen);
    assert(material_of(b, PieceType::King) == 0);
}

} // verus!
