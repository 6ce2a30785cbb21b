//! Precomputed attack tables. Knight, king and pawn attacks come from fixed
//! offsets; rook and bishop attacks are looked up through magic
//! multiplication, and each lookup is proved equal to a ray trace.

use crate::bits::{bit, clear_lsb, group_bits, has_sq, lemma_popcount_clear, popcount};
use vstd::arithmetic::power2::{lemma_pow2_unfold, pow2};
use crate::utils::random_u64_few_bits;
use vstd::prelude::*;

verus! {

broadcast use group_bits;

pub open spec fn on_board(r: int, f: int) -> bool {
    0 <= r < 8 && 0 <= f < 8
}

pub open spec fn square_of(r: int, f: int) -> u64 {
    (r * 8 + f) as u64
}

/// The square `dr` ranks and `df` files away from `sq`, as a bitboard;
/// empty when it falls off the board.
pub open spec fn step(sq: u64, dr: int, df: int) -> u64 {
    let r = sq / 8 + dr;
    let f = sq % 8 + df;
    if on_board(r, f) {
        bit(square_of(r, f))
    } else {
        0
    }
}

pub open spec fn knight_mask(sq: u64) -> u64 {
    step(sq, 1, 2) | step(sq, 2, 1) | step(sq, 2, -1) | step(sq, 1, -2) | step(sq, -1, -2)
        | step(sq, -2, -1) | step(sq, -2, 1) | step(sq, -1, 2)
}

pub open spec fn king_mask(sq: u64) -> u64 {
    step(sq, 1, -1) | step(sq, 1, 0) | step(sq, 1, 1) | step(sq, 0, -1) | step(sq, 0, 1) | step(
        sq,
        -1,
        -1,
    ) | step(sq, -1, 0) | step(sq, -1, 1)
}

/// Squares a white pawn on `sq` captures on.
pub open spec fn white_pawn_mask(sq: u64) -> u64 {
    step(sq, 1, -1) | step(sq, 1, 1)
}

/// Squares a black pawn on `sq` captures on.
pub open spec fn black_pawn_mask(sq: u64) -> u64 {
    step(sq, -1, -1) | step(sq, -1, 1)
}

/// The squares a slider standing on (r, f) reaches in direction (dr, df)
/// within `fuel` steps, stopping on (and including) the first occupied one.
pub open spec fn walk(r: int, f: int, dr: int, df: int, occ: u64, fuel: nat) -> u64
    decreases fuel,
{
    if fuel == 0 || !on_board(r + dr, f + df) {
        0
    } else {
        let s = square_of(r + dr, f + df);
        if has_sq(occ, s) {
            bit(s)
        } else {
            bit(s) | walk(r + dr, f + df, dr, df, occ, (fuel - 1) as nat)
        }
    }
}

/// The squares in direction (dr, df) from (r, f) that could block a slider:
/// the ray without its last square on the board.
pub open spec fn inner_walk(r: int, f: int, dr: int, df: int, fuel: nat) -> u64
    decreases fuel,
{
    if fuel == 0 || !on_board(r + dr, f + df) || !on_board(r + 2 * dr, f + 2 * df) {
        0
    } else {
        bit(square_of(r + dr, f + df)) | inner_walk(r + dr, f + df, dr, df, (fuel - 1) as nat)
    }
}

/// First coordinate of the four directions of a rook (`rook`) or a bishop.
pub open spec fn dir_r(rook: bool, d: int) -> int {
    if rook {
        if d == 0 {
            1
        } else if d == 1 {
            -1
        } else {
            0
        }
    } else {
        if d <= 1 {
            1
        } else {
            -1
        }
    }
}

pub open spec fn dir_f(rook: bool, d: int) -> int {
    if rook {
        if d == 2 {
            1
        } else if d == 3 {
            -1
        } else {
            0
        }
    } else {
        if d == 0 || d == 2 {
            1
        } else {
            -1
        }
    }
}

pub open spec fn ray(rook: bool, sq: u64, d: int, occ: u64) -> u64 {
    walk((sq / 8) as int, (sq % 8) as int, dir_r(rook, d), dir_f(rook, d), occ, 7)
}

pub open spec fn inner_ray(rook: bool, sq: u64, d: int) -> u64 {
    inner_walk((sq / 8) as int, (sq % 8) as int, dir_r(rook, d), dir_f(rook, d), 7)
}

/// Squares attacked by a rook (`rook`) or a bishop on `sq` when the squares
/// of `occ` are occupied, by ray tracing in its four directions.
pub open spec fn slider_attacks(rook: bool, sq: u64, occ: u64) -> u64 {
    ray(rook, sq, 0, occ) | ray(rook, sq, 1, occ) | ray(rook, sq, 2, occ) | ray(rook, sq, 3, occ)
}

/// The blocker mask of a rook (`rook`) or a bishop on `sq`.
pub open spec fn slider_mask(rook: bool, sq: u64) -> u64 {
    inner_ray(rook, sq, 0) | inner_ray(rook, sq, 1) | inner_ray(rook, sq, 2) | inner_ray(
        rook,
        sq,
        3,
    )
}

pub open spec fn rook_attacks(sq: u64, occ: u64) -> u64 {
    slider_attacks(true, sq, occ)
}

pub open spec fn bishop_attacks(sq: u64, occ: u64) -> u64 {
    slider_attacks(false, sq, occ)
}

/// Index bits of each slider's table: 12 for a rook, 9 for a bishop.
pub open spec fn index_bits(rook: bool) -> u64 {
    if rook {
        12
    } else {
        9
    }
}

pub open spec fn table_size(rook: bool) -> int {
    if rook {
        4096
    } else {
        512
    }
}

/// The slot that an occupancy hashes to under a magic multiplier.
pub open spec fn magic_index(occ: u64, magic: u64, rook: bool) -> u64 {
    occ.wrapping_mul(magic) >> ((64 - index_bits(rook)) as u64)
}

pub open spec fn subset(a: u64, b: u64) -> bool {
    a & !b == 0
}

/// The attack table of one slider kind, for all 64 squares.
pub struct SliderTable {
    pub blockers_masks: Vec<u64>,
    pub magics: Vec<u64>,
    /// Whether a magic multiplier was found for the square; a square without
    /// one is answered by ray tracing.
    pub found: Vec<bool>,
    pub attacks: Vec<u64>,
}

impl SliderTable {
    pub open spec fn wf(&self, rook: bool) -> bool {
        &&& self.blockers_masks.len() == 64
        &&& self.magics.len() == 64
        &&& self.found.len() == 64
        &&& self.attacks.len() == 64 * table_size(rook)
        &&& forall|sq: u64| sq < 64 ==> #[trigger] self.blockers_masks@[sq as int] == slider_mask(rook, sq)
        &&& forall|sq: u64, occ: u64|
            #![trigger magic_index(occ, self.magics@[sq as int], rook)]
            sq < 64 && self.found@[sq as int] && subset(occ, self.blockers_masks@[sq as int])
                ==> self.attacks@[sq * table_size(rook) + magic_index(occ, self.magics@[sq as int], rook)]
                == slider_attacks(rook, sq, occ)
    }
}

impl SliderTable {
    /// Each square marked found has a working multiplier, and each square
    /// whose known multiplier works is marked found.
    pub open spec fn magics_sound(&self, rook: bool) -> bool {
        forall|s: u64|
            s < 64 ==> (#[trigger] self.found@[s as int] ==> magic_ok(rook, s, self.magics@[s as int]))
                && (magic_ok(rook, s, known_magic_value(rook, s as int)) ==> self.found@[s as int])
    }
}

pub struct LookUpTable {
    pub knight_attacks: Vec<u64>,
    pub king_attacks: Vec<u64>,
    pub white_pawn_attacks: Vec<u64>,
    pub black_pawn_attacks: Vec<u64>,
    pub rook: SliderTable,
    pub bishop: SliderTable,
}

impl LookUpTable {
    pub open spec fn wf(&self) -> bool {
        &&& self.knight_attacks.len() == 64
        &&& self.king_attacks.len() == 64
        &&& self.white_pawn_attacks.len() == 64
        &&& self.black_pawn_attacks.len() == 64
        &&& forall|sq: u64| sq < 64 ==> #[trigger] self.knight_attacks@[sq as int] == knight_mask(sq)
        &&& forall|sq: u64| sq < 64 ==> #[trigger] self.king_attacks@[sq as int] == king_mask(sq)
        &&& forall|sq: u64| sq < 64 ==> #[trigger] self.white_pawn_attacks@[sq as int] == white_pawn_mask(sq)
        &&& forall|sq: u64| sq < 64 ==> #[trigger] self.black_pawn_attacks@[sq as int] == black_pawn_mask(sq)
        &&& self.rook.wf(true)
        &&& self.bishop.wf(false)
    }
}

fn step_exec(sq: u64, dr: i64, df: i64) -> (r: u64)
    requires
        sq < 64,
        -2 <= dr <= 2,
        -2 <= df <= 2,
    ensures
        r == step(sq, dr as int, df as int),
{
    let r = (sq / 8) as i64 + dr;
    let f = (sq % 8) as i64 + df;
    if 0 <= r && r < 8 && 0 <= f && f < 8 {
        1u64 << ((r * 8 + f) as u64)
    } else {
        0
    }
}

/// Knight destinations from every square.
pub fn generate_knight_mask() -> (r: Vec<u64>)
    ensures
        r.len() == 64,
        forall|sq: u64| sq < 64 ==> #[trigger] r@[sq as int] == knight_mask(sq),
{
    let mut v: Vec<u64> = Vec::new();
    let mut sq: u64 = 0;
    while sq < 64
        invariant
            sq <= 64,
            v.len() == sq,
            forall|s: u64| s < sq ==> #[trigger] v@[s as int] == knight_mask(s),
        decreases 64 - sq,
    {
        let m = step_exec(sq, 1, 2) | step_exec(sq, 2, 1) | step_exec(sq, 2, -1) | step_exec(
            sq,
            1,
            -2,
        ) | step_exec(sq, -1, -2) | step_exec(sq, -2, -1) | step_exec(sq, -2, 1) | step_exec(
            sq,
            -1,
            2,
        );
        v.push(m);
        sq += 1;
    }
    v
}

/// King destinations from every square (castling is handled elsewhere).
pub fn generate_king_mask() -> (r: Vec<u64>)
    ensures
        r.len() == 64,
        forall|sq: u64| sq < 64 ==> #[trigger] r@[sq as int] == king_mask(sq),
{
    let mut v: Vec<u64> = Vec::new();
    let mut sq: u64 = 0;
    while sq < 64
        invariant
            sq <= 64,
            v.len() == sq,
            forall|s: u64| s < sq ==> #[trigger] v@[s as int] == king_mask(s),
        decreases 64 - sq,
    {
        let m = step_exec(sq, 1, -1) | step_exec(sq, 1, 0) | step_exec(sq, 1, 1) | step_exec(
            sq,
            0,
            -1,
        ) | step_exec(sq, 0, 1) | step_exec(sq, -1, -1) | step_exec(sq, -1, 0) | step_exec(
            sq,
            -1,
            1,
        );
        v.push(m);
        sq += 1;
    }
    v
}

/// Capture squares of a white pawn on every square, clipped at the edges.
pub fn generate_white_pawn_attacks() -> (r: Vec<u64>)
    ensures
        r.len() == 64,
        forall|sq: u64| sq < 64 ==> #[trigger] r@[sq as int] == white_pawn_mask(sq),
{
    let mut v: Vec<u64> = Vec::new();
    let mut sq: u64 = 0;
    while sq < 64
        invariant
            sq <= 64,
            v.len() == sq,
            forall|s: u64| s < sq ==> #[trigger] v@[s as int] == white_pawn_mask(s),
        decreases 64 - sq,
    {
        v.push(step_exec(sq, 1, -1) | step_exec(sq, 1, 1));
        sq += 1;
    }
    v
}

/// Capture squares of a black pawn on every square, clipped at the edges.
pub fn generate_black_pawn_attacks() -> (r: Vec<u64>)
    ensures
        r.len() == 64,
        forall|sq: u64| sq < 64 ==> #[trigger] r@[sq as int] == black_pawn_mask(sq),
{
    let mut v: Vec<u64> = Vec::new();
    let mut sq: u64 = 0;
    while sq < 64
        invariant
            sq <= 64,
            v.len() == sq,
            forall|s: u64| s < sq ==> #[trigger] v@[s as int] == black_pawn_mask(s),
        decreases 64 - sq,
    {
        v.push(step_exec(sq, -1, -1) | step_exec(sq, -1, 1));
        sq += 1;
    }
    v
}

fn walk_exec(r: i64, f: i64, dr: i64, df: i64, occ: u64, fuel: u64) -> (res: u64)
    requires
        0 <= r < 8,
        0 <= f < 8,
        -1 <= dr <= 1,
        -1 <= df <= 1,
        fuel <= 7,
    ensures
        res == walk(r as int, f as int, dr as int, df as int, occ, fuel as nat),
    decreases fuel,
{
    let nr = r + dr;
    let nf = f + df;
    if fuel == 0 || !(0 <= nr && nr < 8 && 0 <= nf && nf < 8) {
        0
    } else {
        let s = (nr * 8 + nf) as u64;
        if (occ >> s) & 1 == 1 {
            1u64 << s
        } else {
            (1u64 << s) | walk_exec(nr, nf, dr, df, occ, fuel - 1)
        }
    }
}

fn inner_walk_exec(r: i64, f: i64, dr: i64, df: i64, fuel: u64) -> (res: u64)
    requires
        0 <= r < 8,
        0 <= f < 8,
        -1 <= dr <= 1,
        -1 <= df <= 1,
        fuel <= 7,
    ensures
        res == inner_walk(r as int, f as int, dr as int, df as int, fuel as nat),
    decreases fuel,
{
    let nr = r + dr;
    let nf = f + df;
    if fuel == 0 || !(0 <= nr && nr < 8 && 0 <= nf && nf < 8) || !(0 <= nr + dr && nr + dr < 8
        && 0 <= nf + df && nf + df < 8) {
        0
    } else {
        (1u64 << ((nr * 8 + nf) as u64)) | inner_walk_exec(nr, nf, dr, df, fuel - 1)
    }
}

fn direction(rook: bool, d: u64) -> (r: (i64, i64))
    requires
        d < 4,
    ensures
        r.0 == dir_r(rook, d as int),
        r.1 == dir_f(rook, d as int),
{
    if rook {
        if d == 0 {
            (1, 0)
        } else if d == 1 {
            (-1, 0)
        } else if d == 2 {
            (0, 1)
        } else {
            (0, -1)
        }
    } else {
        if d == 0 {
            (1, 1)
        } else if d == 1 {
            (1, -1)
        } else if d == 2 {
            (-1, 1)
        } else {
            (-1, -1)
        }
    }
}

fn ray_exec(rook: bool, sq: u64, d: u64, occ: u64) -> (r: u64)
    requires
        sq < 64,
        d < 4,
    ensures
        r == ray(rook, sq, d as int, occ),
{
    let (dr, df) = direction(rook, d);
    walk_exec((sq / 8) as i64, (sq % 8) as i64, dr, df, occ, 7)
}

fn inner_ray_exec(rook: bool, sq: u64, d: u64) -> (r: u64)
    requires
        sq < 64,
        d < 4,
    ensures
        r == inner_ray(rook, sq, d as int),
{
    let (dr, df) = direction(rook, d);
    inner_walk_exec((sq / 8) as i64, (sq % 8) as i64, dr, df, 7)
}

/// Ray-traced attacks of a rook (`rook`) or a bishop on `sq`.
pub fn slider_attacks_exec(rook: bool, sq: u64, occ: u64) -> (r: u64)
    requires
        sq < 64,
    ensures
        r == slider_attacks(rook, sq, occ),
{
    ray_exec(rook, sq, 0, occ) | ray_exec(rook, sq, 1, occ) | ray_exec(rook, sq, 2, occ)
        | ray_exec(rook, sq, 3, occ)
}

/// Rook blocker masks: the rank and file through each square, without the
/// square itself and without the edge squares at the ends of the rays.
pub fn generate_rook_blockers_masks() -> (r: Vec<u64>)
    ensures
        r.len() == 64,
        forall|sq: u64| sq < 64 ==> #[trigger] r@[sq as int] == slider_mask(true, sq),
{
    let mut v: Vec<u64> = Vec::new();
    let mut sq: u64 = 0;
    while sq < 64
        invariant
            sq <= 64,
            v.len() == sq,
            forall|s: u64| s < sq ==> #[trigger] v@[s as int] == slider_mask(true, s),
        decreases 64 - sq,
    {
        v.push(
            inner_ray_exec(true, sq, 0) | inner_ray_exec(true, sq, 1) | inner_ray_exec(true, sq, 2)
                | inner_ray_exec(true, sq, 3),
        );
        sq += 1;
    }
    v
}

/// Bishop blocker masks along the north-east / south-west diagonal.
pub fn generate_bishop_anti_diag_blockers_masks() -> (r: Vec<u64>)
    ensures
        r.len() == 64,
        forall|sq: u64| sq < 64 ==> #[trigger] r@[sq as int] == inner_ray(false, sq, 0) | inner_ray(false, sq, 3),
{
    let mut v: Vec<u64> = Vec::new();
    let mut sq: u64 = 0;
    while sq < 64
        invariant
            sq <= 64,
            v.len() == sq,
            forall|s: u64| s < sq ==> #[trigger] v@[s as int] == inner_ray(false, s, 0) | inner_ray(false, s, 3),
        decreases 64 - sq,
    {
        v.push(inner_ray_exec(false, sq, 0) | inner_ray_exec(false, sq, 3));
        sq += 1;
    }
    v
}

/// Bishop blocker masks along the north-west / south-east diagonal.
pub fn generate_bishop_diag_blockers_masks() -> (r: Vec<u64>)
    ensures
        r.len() == 64,
        forall|sq: u64| sq < 64 ==> #[trigger] r@[sq as int] == inner_ray(false, sq, 1) | inner_ray(false, sq, 2),
{
    let mut v: Vec<u64> = Vec::new();
    let mut sq: u64 = 0;
    while sq < 64
        invariant
            sq <= 64,
            v.len() == sq,
            forall|s: u64| s < sq ==> #[trigger] v@[s as int] == inner_ray(false, s, 1) | inner_ray(false, s, 2),
        decreases 64 - sq,
    {
        v.push(inner_ray_exec(false, sq, 1) | inner_ray_exec(false, sq, 2));
        sq += 1;
    }
    v
}

proof fn lemma_or_zero(x: u64)
    ensures
        x | 0 == x,
{
    assert(x | 0 == x) by (bit_vector);
}

/// A ray depends only on the occupancy of its squares short of the edge.
proof fn lemma_walk_relevant(r: int, f: int, dr: int, df: int, occ1: u64, occ2: u64, fuel: nat)
    requires
        on_board(r, f),
        -1 <= dr <= 1,
        -1 <= df <= 1,
        forall|i: u64|
            i < 64 && #[trigger] has_sq(inner_walk(r, f, dr, df, fuel), i) ==> has_sq(occ1, i)
                == has_sq(occ2, i),
    ensures
        walk(r, f, dr, df, occ1, fuel) == walk(r, f, dr, df, occ2, fuel),
    decreases fuel,
{
    if fuel == 0 || !on_board(r + dr, f + df) {
    } else {
        let s = square_of(r + dr, f + df);
        let rest = inner_walk(r + dr, f + df, dr, df, (fuel - 1) as nat);
        if on_board(r + 2 * dr, f + 2 * df) {
            assert(inner_walk(r, f, dr, df, fuel) == bit(s) | rest);
            assert(has_sq(inner_walk(r, f, dr, df, fuel), s));
            assert forall|i: u64| i < 64 && #[trigger] has_sq(rest, i) implies has_sq(occ1, i)
                == has_sq(occ2, i) by {
                assert(has_sq(inner_walk(r, f, dr, df, fuel), i));
            }
            lemma_walk_relevant(r + dr, f + df, dr, df, occ1, occ2, (fuel - 1) as nat);
        } else {
            lemma_or_zero(bit(s));
            assert(walk(r + dr, f + df, dr, df, occ1, (fuel - 1) as nat) == 0);
            assert(walk(r + dr, f + df, dr, df, occ2, (fuel - 1) as nat) == 0);
        }
    }
}

/// Slider attacks depend only on the occupancy inside the blocker mask.
pub proof fn lemma_slider_relevant(rook: bool, sq: u64, occ: u64)
    requires
        sq < 64,
    ensures
        slider_attacks(rook, sq, occ & slider_mask(rook, sq)) == slider_attacks(rook, sq, occ),
{
    let m = slider_mask(rook, sq);
    let r = (sq / 8) as int;
    let f = (sq % 8) as int;
    assert forall|d: int| 0 <= d < 4 implies #[trigger] ray(rook, sq, d, occ & m) == ray(
        rook,
        sq,
        d,
        occ,
    ) by {
        assert forall|i: u64|
            i < 64 && #[trigger] has_sq(
                inner_walk(r, f, dir_r(rook, d), dir_f(rook, d), 7),
                i,
            ) implies has_sq(occ & m, i) == has_sq(occ, i) by {
            assert(has_sq(inner_ray(rook, sq, d), i));
            assert(has_sq(m, i));
        }
        lemma_walk_relevant(r, f, dir_r(rook, d), dir_f(rook, d), occ & m, occ, 7);
    }
    assert(ray(rook, sq, 0, occ & m) == ray(rook, sq, 0, occ));
    assert(ray(rook, sq, 1, occ & m) == ray(rook, sq, 1, occ));
    assert(ray(rook, sq, 2, occ & m) == ray(rook, sq, 2, occ));
    assert(ray(rook, sq, 3, occ & m) == ray(rook, sq, 3, occ));
}

/// The subset of `mask` that follows `occ` in increasing order, or 0 after
/// the last one.
pub open spec fn next_subset(occ: u64, mask: u64) -> u64 {
    ((occ - mask) as u64) & mask
}

proof fn lemma_next_subset(occ: u64, mask: u64, s: u64)
    requires
        subset(occ, mask),
        subset(s, mask),
        occ < s,
    ensures
        next_subset(occ, mask) != 0,
        next_subset(occ, mask) <= s,
{
    assert(((occ - mask) as u64) & mask != 0 && ((occ - mask) as u64) & mask <= s) by (bit_vector)
        requires
            occ & !mask == 0,
            s & !mask == 0,
            occ < s,
    ;
}

proof fn lemma_next_subset_grows(occ: u64, mask: u64)
    requires
        subset(occ, mask),
    ensures
        subset(next_subset(occ, mask), mask),
        next_subset(occ, mask) <= mask,
        next_subset(occ, mask) != 0 ==> next_subset(occ, mask) > occ,
        occ <= mask,
{
    assert(((((occ - mask) as u64) & mask) & !mask == 0) && ((occ - mask) as u64) & mask <= mask
        && (((occ - mask) as u64) & mask != 0 ==> ((occ - mask) as u64) & mask > occ) && occ
        <= mask) by (bit_vector)
        requires
            occ & !mask == 0,
    ;
}

/// The subsets of `m`.
pub open spec fn subsets_of(m: u64) -> Set<u64> {
    Set::new(|s: u64| subset(s, m))
}

/// A bitboard has two to the power of its square count subsets.
pub proof fn lemma_subset_count(m: u64)
    ensures
        subsets_of(m).finite(),
        subsets_of(m).len() == pow2(popcount(m)),
    decreases m,
{
    if m == 0 {
        assert forall|s: u64| subset(s, 0) <==> s == 0 by {
            assert(subset(s, 0) <==> s == 0) by (bit_vector);
        }
        assert(subsets_of(0) =~= set![0u64]);
        assert(popcount(0) == 0) by {
            crate::bits::lemma_popcount_zero(0);
        }
        assert(pow2(0) == 1) by {
            vstd::arithmetic::power2::lemma2_to64();
        }
    } else {
        let mp = clear_lsb(m);
        let lb = m ^ mp;
        assert(mp < m && mp == m & ((m - 1) as u64)) by (bit_vector)
            requires
                m != 0,
                mp == m & ((m - 1) as u64),
        ;
        lemma_subset_count(mp);
        lemma_popcount_clear(m, 0);
        crate::bits::lemma_lsb(m);
        let low = subsets_of(mp);
        let f = |t: u64| t | lb;
        let high = low.map(f);
        assert forall|t1: u64, t2: u64|
            low.contains(t1) && low.contains(t2) && #[trigger] f(t1) == #[trigger] f(t2) implies t1
            == t2 by {
            assert(t1 == t2) by (bit_vector)
                requires
                    m != 0,
                    mp == m & ((m - 1) as u64),
                    lb == m ^ mp,
                    t1 & !mp == 0,
                    t2 & !mp == 0,
                    t1 | lb == t2 | lb,
            ;
        }
        vstd::set_lib::lemma_map_size(low, high, f);
        assert forall|s: u64| subsets_of(m).contains(s) <==> (low + high).contains(s) by {
            if subset(s, m) {
                if s & lb == 0 {
                    assert(subset(s, mp)) by (bit_vector)
                        requires
                            m != 0,
                            mp == m & ((m - 1) as u64),
                            lb == m ^ mp,
                            s & !m == 0,
                            s & lb == 0,
                    ;
                } else {
                    let t = s ^ lb;
                    assert(subset(t, mp) && t | lb == s) by (bit_vector)
                        requires
                            m != 0,
                            mp == m & ((m - 1) as u64),
                            lb == m ^ mp,
                            s & !m == 0,
                            s & lb != 0,
                            t == s ^ lb,
                    ;
                    assert(low.contains(t));
                    assert(high.contains(f(t)));
                }
            }
            if low.contains(s) {
                assert(subset(s, m)) by (bit_vector)
                    requires
                        mp == m & ((m - 1) as u64),
                        s & !mp == 0,
                ;
            }
            if high.contains(s) {
                let t = choose|t: u64| low.contains(t) && f(t) == s;
                assert(subset(s, m)) by (bit_vector)
                    requires
                        m != 0,
                        mp == m & ((m - 1) as u64),
                        lb == m ^ mp,
                        t & !mp == 0,
                        s == t | lb,
                ;
            }
        }
        assert(subsets_of(m) =~= low + high);
        assert(low.disjoint(high)) by {
            assert forall|s: u64| low.contains(s) implies !high.contains(s) by {
                if high.contains(s) {
                    let t = choose|t: u64| low.contains(t) && f(t) == s;
                    assert(false) by (bit_vector)
                        requires
                            m != 0,
                            mp == m & ((m - 1) as u64),
                            lb == m ^ mp,
                            t & !mp == 0,
                            s & !mp == 0,
                            s == t | lb,
                    ;
                }
            }
        }
        vstd::set_lib::lemma_set_disjoint_lens(low, high);
        lemma_pow2_unfold(popcount(m));
    }
}

/// Every subset of the blocker mask of `sq`, each with the attacks of a
/// rook (`rook`) or a bishop on `sq` under that occupancy.
fn generate_occupancy_combos(rook: bool, sq: u64) -> (r: Vec<(u64, u64)>)
    requires
        sq < 64,
    ensures
        forall|j: int|
            0 <= j < r.len() ==> subset(#[trigger] r@[j].0, slider_mask(rook, sq)) && r@[j].1
                == slider_attacks(rook, sq, r@[j].0),
        forall|s: u64|
            subset(s, slider_mask(rook, sq)) ==> exists|j: int|
                0 <= j < r.len() && #[trigger] r@[j].0 == s,
        forall|i: int, j: int| 0 <= i < j < r.len() ==> #[trigger] r@[i].0 < #[trigger] r@[j].0,
        r.len() == pow2(popcount(slider_mask(rook, sq))),
{
    let mask = inner_ray_exec(rook, sq, 0) | inner_ray_exec(rook, sq, 1) | inner_ray_exec(
        rook,
        sq,
        2,
    ) | inner_ray_exec(rook, sq, 3);
    let mut v: Vec<(u64, u64)> = Vec::new();
    let mut occ: u64 = 0;
    let mut done = false;
    assert(subset(0, mask)) by (bit_vector);
    while !done
        invariant
            mask == slider_mask(rook, sq),
            sq < 64,
            subset(occ, mask),
            forall|i: int, j: int| 0 <= i < j < v.len() ==> #[trigger] v@[i].0 < #[trigger] v@[j].0,
            !done ==> forall|k: int| 0 <= k < v.len() ==> #[trigger] v@[k].0 < occ,
            forall|j: int|
                0 <= j < v.len() ==> subset(#[trigger] v@[j].0, mask) && v@[j].1 == slider_attacks(
                    rook,
                    sq,
                    v@[j].0,
                ),
            forall|s: u64|
                subset(s, mask) && (done || s < occ) ==> exists|j: int|
                    0 <= j < v.len() && #[trigger] v@[j].0 == s,
        decreases mask - occ + (if done { 0int } else { 1int }),
    {
        proof {
            lemma_next_subset_grows(occ, mask);
        }
        let att = slider_attacks_exec(rook, sq, occ);
        let ghost old_v = v@;
        v.push((occ, att));
        assert forall|s: u64| subset(s, mask) && s <= occ implies exists|j: int|
            0 <= j < v.len() && #[trigger] v@[j].0 == s by {
            if s == occ {
                assert(v@[old_v.len() as int].0 == s);
            } else {
                let j = choose|j: int| 0 <= j < old_v.len() && #[trigger] old_v[j].0 == s;
                assert(v@[j].0 == s);
            }
        }
        let next = occ.wrapping_sub(mask) & mask;
        assert(next == next_subset(occ, mask)) by (bit_vector)
            requires
                next == occ.wrapping_sub(mask) & mask,
        ;
        if next == 0 {
            assert forall|s: u64| subset(s, mask) implies s <= occ by {
                if s > occ {
                    lemma_next_subset(occ, mask, s);
                }
            }
            done = true;
        } else {
            assert forall|s: u64| subset(s, mask) && s < next implies s <= occ by {
                if s > occ {
                    lemma_next_subset(occ, mask, s);
                }
            }
            occ = next;
        }
    }
    proof {
        let keys = v@.map_values(|p: (u64, u64)| p.0);
        assert forall|i: int, j: int| 0 <= i < keys.len() && 0 <= j < keys.len() && i != j implies keys[i]
            != keys[j] by {
            if i < j {
                assert(v@[i].0 < v@[j].0);
            } else {
                assert(v@[j].0 < v@[i].0);
            }
        }
        assert forall|x: u64| keys.to_set().contains(x) <==> subsets_of(mask).contains(x) by {
            if subset(x, mask) {
                let j = choose|j: int| 0 <= j < v.len() && #[trigger] v@[j].0 == x;
                assert(keys[j] == x);
            }
            if keys.contains(x) {
                let j = choose|j: int| 0 <= j < keys.len() && keys[j] == x;
                assert(subset(v@[j].0, mask));
            }
        }
        assert(keys.to_set() =~= subsets_of(mask));
        keys.unique_seq_to_set();
        lemma_subset_count(mask);
    }
    v
}

/// Every blocker configuration of a rook on `square`, with the rook's attacks.
pub fn generate_rook_occupancy_combos(square: &u8) -> (r: Vec<(u64, u64)>)
    requires
        *square < 64,
    ensures
        forall|j: int|
            0 <= j < r.len() ==> subset(#[trigger] r@[j].0, slider_mask(true, *square as u64))
                && r@[j].1 == slider_attacks(true, *square as u64, r@[j].0),
        forall|s: u64|
            #[trigger] subset(s, slider_mask(true, *square as u64)) ==> exists|j: int|
                0 <= j < r.len() && #[trigger] r@[j].0 == s,
        forall|i: int, j: int| 0 <= i < j < r.len() ==> #[trigger] r@[i].0 < #[trigger] r@[j].0,
        r.len() == pow2(popcount(slider_mask(true, *square as u64))),
{
    generate_occupancy_combos(true, *square as u64)
}

/// Every blocker configuration of a bishop on `square`, with the bishop's attacks.
pub fn generate_bishop_occupancy_combos(square: &u8) -> (r: Vec<(u64, u64)>)
    requires
        *square < 64,
    ensures
        forall|j: int|
            0 <= j < r.len() ==> subset(#[trigger] r@[j].0, slider_mask(false, *square as u64))
                && r@[j].1 == slider_attacks(false, *square as u64, r@[j].0),
        forall|s: u64|
            #[trigger] subset(s, slider_mask(false, *square as u64)) ==> exists|j: int|
                0 <= j < r.len() && #[trigger] r@[j].0 == s,
        forall|i: int, j: int| 0 <= i < j < r.len() ==> #[trigger] r@[i].0 < #[trigger] r@[j].0,
        r.len() == pow2(popcount(slider_mask(false, *square as u64))),
{
    generate_occupancy_combos(false, *square as u64)
}

/// Attempts of the randomized magic search per square before that square
/// falls back to ray tracing.
pub const MAX_MAGIC_ATTEMPTS: u64 = 100000000;

proof fn lemma_index_bound(occ: u64, magic: u64, rook: bool)
    ensures
        magic_index(occ, magic, rook) < table_size(rook),
{
    let x = occ.wrapping_mul(magic);
    if rook {
        assert(x >> 52u64 < 4096) by (bit_vector);
    } else {
        assert(x >> 55u64 < 512) by (bit_vector);
    }
}

fn magic_index_exec(occ: u64, magic: u64, rook: bool) -> (r: usize)
    ensures
        r == magic_index(occ, magic, rook),
        r < table_size(rook),
{
    proof {
        lemma_index_bound(occ, magic, rook);
    }
    if rook {
        (occ.wrapping_mul(magic) >> 52u64) as usize
    } else {
        (occ.wrapping_mul(magic) >> 55u64) as usize
    }
}

/// Stores every combination's attacks at its magic slot in the region
/// starting at `base`; fails on a destructive collision. A slot counts as
/// filled when its stamp equals `epoch`.
/// No two combinations share a slot under `magic` with different attacks.
pub open spec fn collision_free(c: Seq<(u64, u64)>, magic: u64, rook: bool) -> bool {
    forall|i: int, j: int|
        #![trigger c[i], c[j]]
        0 <= i < c.len() && 0 <= j < c.len() && magic_index(c[i].0, magic, rook) == magic_index(
            c[j].0,
            magic,
            rook,
        ) ==> c[i].1 == c[j].1
}

/// A multiplier works for square `sq`: two blocker configurations that
/// share a slot have the same attacks.
pub open spec fn magic_ok(rook: bool, sq: u64, magic: u64) -> bool {
    forall|o1: u64, o2: u64|
        #![trigger magic_index(o1, magic, rook), magic_index(o2, magic, rook)]
        subset(o1, slider_mask(rook, sq)) && subset(o2, slider_mask(rook, sq)) && magic_index(
            o1,
            magic,
            rook,
        ) == magic_index(o2, magic, rook) ==> slider_attacks(rook, sq, o1) == slider_attacks(
            rook,
            sq,
            o2,
        )
}

fn try_fill(
    rook: bool,
    combos: &Vec<(u64, u64)>,
    magic: u64,
    base: usize,
    epoch: u64,
    table: &mut Vec<u64>,
    stamps: &mut Vec<u64>,
) -> (ok: bool)
    requires
        old(stamps).len() == table_size(rook),
        base + table_size(rook) <= old(table).len(),
        forall|x: int| 0 <= x < old(stamps).len() ==> #[trigger] old(stamps)@[x] < epoch,
    ensures
        final(table).len() == old(table).len(),
        final(stamps).len() == old(stamps).len(),
        forall|x: int| 0 <= x < final(stamps).len() ==> #[trigger] final(stamps)@[x] <= epoch,
        ok == collision_free(combos@, magic, rook),
        forall|i: int|
            0 <= i < final(table).len() && !(base <= i < base + table_size(rook))
                ==> #[trigger] final(table)@[i] == old(table)@[i],
        ok ==> forall|j: int|
            0 <= j < combos.len() ==> final(table)@[base + magic_index(
                #[trigger] combos@[j].0,
                magic,
                rook,
            )] == combos@[j].1,
{
    let mut j: usize = 0;
    while j < combos.len()
        invariant
            j <= combos.len(),
            stamps.len() == table_size(rook),
            stamps.len() == old(stamps).len(),
            table.len() == old(table).len(),
            base + table_size(rook) <= table.len(),
            forall|i: int|
                0 <= i < table.len() && !(base <= i < base + table_size(rook))
                    ==> #[trigger] table@[i] == old(table)@[i],
            forall|k: int|
                0 <= k < j ==> stamps@[magic_index(#[trigger] combos@[k].0, magic, rook) as int]
                    == epoch && table@[base + magic_index(combos@[k].0, magic, rook)]
                    == combos@[k].1,
            forall|x: int| 0 <= x < stamps.len() ==> #[trigger] stamps@[x] <= epoch,
            forall|x: int|
                0 <= x < stamps.len() && #[trigger] stamps@[x] == epoch ==> exists|k: int|
                    0 <= k < j && magic_index(combos@[k].0, magic, rook) == x,
        decreases combos.len() - j,
    {
        let (occ, att) = combos[j];
        let i = magic_index_exec(occ, magic, rook);
        assert(combos@[j as int].0 == occ && combos@[j as int].1 == att);
        let ghost old_stamps = stamps@;
        let ghost old_table = table@;
        if stamps[i] != epoch {
            stamps.set(i, epoch);
            table.set(base + i, att);
            assert forall|k: int| 0 <= k < j + 1 implies stamps@[magic_index(
                #[trigger] combos@[k].0,
                magic,
                rook,
            ) as int] == epoch && table@[base + magic_index(combos@[k].0, magic, rook)]
                == combos@[k].1 by {
                if k < j {
                    lemma_index_bound(combos@[k].0, magic, rook);
                    assert(old_stamps[magic_index(combos@[k].0, magic, rook) as int] == epoch);
                    assert(magic_index(combos@[k].0, magic, rook) != i);
                }
            }
            assert forall|x: int|
                0 <= x < stamps.len() && #[trigger] stamps@[x] == epoch implies exists|k: int|
                0 <= k < j + 1 && magic_index(combos@[k].0, magic, rook) == x by {
                if x == i {
                    assert(magic_index(combos@[j as int].0, magic, rook) == x);
                } else {
                    assert(old_stamps[x] == epoch);
                }
            }
        } else if table[base + i] != att {
            proof {
                let k = choose|k: int|
                    0 <= k < j && magic_index(combos@[k].0, magic, rook) == i as int;
                assert(combos@[k].1 != combos@[j as int].1);
                assert(!collision_free(combos@, magic, rook));
            }
            return false;
        }
        j += 1;
    }
    assert forall|a: int, b: int|
        #![trigger combos@[a], combos@[b]]
        0 <= a < combos.len() && 0 <= b < combos.len() && magic_index(combos@[a].0, magic, rook)
            == magic_index(combos@[b].0, magic, rook) implies combos@[a].1 == combos@[b].1 by {
        assert(table@[base + magic_index(combos@[a].0, magic, rook)] == combos@[a].1);
        assert(table@[base + magic_index(combos@[b].0, magic, rook)] == combos@[b].1);
    }
    true
}

/// Multipliers known to work for each square, tried before any random draw.
pub open spec fn known_magic_value(rook: bool, sq: int) -> u64 {
    if rook {
        seq![
            612489824210784898, 6779043613978525952, 2612092465398679568, 148618929473325056,
            2396935483162880, 1157429777167155459, 1155182101588410369, 792633690135068928,
            158331821949457, 4612884486385140864, 11543974907410120832, 2252353870760256,
            71502615691776, 74450268787572738, 281545877243136, 562950676433034,
            36738018526430272, 292751842845524160, 9223935158623668224, 1514128949985291284,
            4612266594943938568, 4612339129139639400, 1173750962137858688, 580969312618087426,
            240027788539627522, 1444531788226560264, 38280614591602720, 146930487733059608,
            18024382161487400, 9229001538544894480, 11566378686206722304, 617134161467052064,
            9223442423324082196, 1128650331390984, 1152992011368923264, 185774035463307274,
            1441719263120588816, 4611690485201764866, 4647715107514751106, 137497807936,
            2341872081118987264, 6919820479666651144, 13835129558468149264, 2533349634498658306,
            36345474621540352, 289075076026864128, 140738562753032, 884976018478073920,
            4630281096523726912, 4634485526203727880, 9232380066112995426, 2306423568672489496,
            5044032717474238466, 4755839427559886850, 2810254967867540032, 4611703750200395840,
            577166643198705826, 4612532712174012801, 13792292118724617, 4630406303674606186,
            2954364741096572426, 601295554645, 5773685391949369492, 2819151037005954,
        ][sq]
    } else {
        seq![
            369295719770629744, 10413167626703908896, 144230095731621888, 2310922753546649856,
            2275166585880720, 180429995624103936, 11556397456285499464, 1152992080315031810,
            144124259663380489, 1441160883094823432, 9234640012740659488, 74826928621640,
            650947424552970, 180145171047002113, 140875195884064, 70929776651265,
            13651674044309760, 9223407222309159040, 9254897339813988962, 19142501936399616,
            9223726096784097793, 14411624379056144768, 567417591832576, 1801475207722969473,
            4614008187018823840, 875954526141284384, 324874917164187780, 37163505914347584,
            2679645076822427652, 306537554008645632, 9224498770004156440, 9224498014090691712,
            1176706287245740545, 81350671151939745, 1135800007918690, 144821080983863424,
            2742694380681830408, 1157710978602043394, 1162214989403005440, 580825609406977,
            2019873237692860416, 306385550149963808, 4512413713959044, 1125909067210770,
            9016034005353216, 9007787967258688, 2332865173921988649, 3458802034944647466,
            36103572475215877, 4611758621629443088, 12384933469651968, 9367496041024242052,
            2217008697352, 1731072760350392320, 2306230037851931650, 11865930711697728,
            4512430147280904, 2470226053506435360, 72621093883745480, 269092864,
            2359889091119679504, 275018482178, 1170937144370528264, 1228506473766724096,
        ][sq]
    }
}

fn known_magic(rook: bool, sq: usize) -> (r: u64)
    requires
        sq < 64,
    ensures
        r == known_magic_value(rook, sq as int),
{
    if rook {
        let t: [u64; 64] = [
                612489824210784898, 6779043613978525952, 2612092465398679568, 148618929473325056,
                2396935483162880, 1157429777167155459, 1155182101588410369, 792633690135068928,
                158331821949457, 4612884486385140864, 11543974907410120832, 2252353870760256,
                71502615691776, 74450268787572738, 281545877243136, 562950676433034,
                36738018526430272, 292751842845524160, 9223935158623668224, 1514128949985291284,
                4612266594943938568, 4612339129139639400, 1173750962137858688, 580969312618087426,
                240027788539627522, 1444531788226560264, 38280614591602720, 146930487733059608,
                18024382161487400, 9229001538544894480, 11566378686206722304, 617134161467052064,
                9223442423324082196, 1128650331390984, 1152992011368923264, 185774035463307274,
                1441719263120588816, 4611690485201764866, 4647715107514751106, 137497807936,
                2341872081118987264, 6919820479666651144, 13835129558468149264, 2533349634498658306,
                36345474621540352, 289075076026864128, 140738562753032, 884976018478073920,
                4630281096523726912, 4634485526203727880, 9232380066112995426, 2306423568672489496,
                5044032717474238466, 4755839427559886850, 2810254967867540032, 4611703750200395840,
                577166643198705826, 4612532712174012801, 13792292118724617, 4630406303674606186,
                2954364741096572426, 601295554645, 5773685391949369492, 2819151037005954,
        ];
        assert(t@ =~= seq![
            612489824210784898, 6779043613978525952, 2612092465398679568, 148618929473325056,
            2396935483162880, 1157429777167155459, 1155182101588410369, 792633690135068928,
            158331821949457, 4612884486385140864, 11543974907410120832, 2252353870760256,
            71502615691776, 74450268787572738, 281545877243136, 562950676433034,
            36738018526430272, 292751842845524160, 9223935158623668224, 1514128949985291284,
            4612266594943938568, 4612339129139639400, 1173750962137858688, 580969312618087426,
            240027788539627522, 1444531788226560264, 38280614591602720, 146930487733059608,
            18024382161487400, 9229001538544894480, 11566378686206722304, 617134161467052064,
            9223442423324082196, 1128650331390984, 1152992011368923264, 185774035463307274,
            1441719263120588816, 4611690485201764866, 4647715107514751106, 137497807936,
            2341872081118987264, 6919820479666651144, 13835129558468149264, 2533349634498658306,
            36345474621540352, 289075076026864128, 140738562753032, 884976018478073920,
            4630281096523726912, 4634485526203727880, 9232380066112995426, 2306423568672489496,
            5044032717474238466, 4755839427559886850, 2810254967867540032, 4611703750200395840,
            577166643198705826, 4612532712174012801, 13792292118724617, 4630406303674606186,
            2954364741096572426, 601295554645, 5773685391949369492, 2819151037005954,
        ]);
        t[sq]
    } else {
        let t: [u64; 64] = [
                369295719770629744, 10413167626703908896, 144230095731621888, 2310922753546649856,
                2275166585880720, 180429995624103936, 11556397456285499464, 1152992080315031810,
                144124259663380489, 1441160883094823432, 9234640012740659488, 74826928621640,
                650947424552970, 180145171047002113, 140875195884064, 70929776651265,
                13651674044309760, 9223407222309159040, 9254897339813988962, 19142501936399616,
                9223726096784097793, 14411624379056144768, 567417591832576, 1801475207722969473,
                4614008187018823840, 875954526141284384, 324874917164187780, 37163505914347584,
                2679645076822427652, 306537554008645632, 9224498770004156440, 9224498014090691712,
                1176706287245740545, 81350671151939745, 1135800007918690, 144821080983863424,
                2742694380681830408, 1157710978602043394, 1162214989403005440, 580825609406977,
                2019873237692860416, 306385550149963808, 4512413713959044, 1125909067210770,
                9016034005353216, 9007787967258688, 2332865173921988649, 3458802034944647466,
                36103572475215877, 4611758621629443088, 12384933469651968, 9367496041024242052,
                2217008697352, 1731072760350392320, 2306230037851931650, 11865930711697728,
                4512430147280904, 2470226053506435360, 72621093883745480, 269092864,
                2359889091119679504, 275018482178, 1170937144370528264, 1228506473766724096,
        ];
        assert(t@ =~= seq![
            369295719770629744, 10413167626703908896, 144230095731621888, 2310922753546649856,
            2275166585880720, 180429995624103936, 11556397456285499464, 1152992080315031810,
            144124259663380489, 1441160883094823432, 9234640012740659488, 74826928621640,
            650947424552970, 180145171047002113, 140875195884064, 70929776651265,
            13651674044309760, 9223407222309159040, 9254897339813988962, 19142501936399616,
            9223726096784097793, 14411624379056144768, 567417591832576, 1801475207722969473,
            4614008187018823840, 875954526141284384, 324874917164187780, 37163505914347584,
            2679645076822427652, 306537554008645632, 9224498770004156440, 9224498014090691712,
            1176706287245740545, 81350671151939745, 1135800007918690, 144821080983863424,
            2742694380681830408, 1157710978602043394, 1162214989403005440, 580825609406977,
            2019873237692860416, 306385550149963808, 4512413713959044, 1125909067210770,
            9016034005353216, 9007787967258688, 2332865173921988649, 3458802034944647466,
            36103572475215877, 4611758621629443088, 12384933469651968, 9367496041024242052,
            2217008697352, 1731072760350392320, 2306230037851931650, 11865930711697728,
            4512430147280904, 2470226053506435360, 72621093883745480, 269092864,
            2359889091119679504, 275018482178, 1170937144370528264, 1228506473766724096,
        ]);
        t[sq]
    }
}

/// Finds a magic multiplier for `sq` and fills the square's region of
/// `table`: the known multiplier first, then random candidates. Returns the multiplier and whether one was
/// found.
fn find_magic(rook: bool, sq: u64, combos: &Vec<(u64, u64)>, table: &mut Vec<u64>) -> (r: (
    u64,
    bool,
))
    requires
        sq < 64,
        old(table).len() == 64 * table_size(rook),
    ensures
        final(table).len() == old(table).len(),
        forall|i: int|
            0 <= i < final(table).len() && !(sq * table_size(rook) <= i < sq * table_size(rook)
                + table_size(rook)) ==> #[trigger] final(table)@[i] == old(table)@[i],
        r.1 ==> forall|j: int|
            0 <= j < combos.len() ==> final(table)@[sq * table_size(rook) + magic_index(
                #[trigger] combos@[j].0,
                r.0,
                rook,
            )] == combos@[j].1,
        r.1 ==> collision_free(combos@, r.0, rook),
        collision_free(combos@, known_magic_value(rook, sq as int), rook) ==> r.1,
{
    let size: usize = if rook {
        4096
    } else {
        512
    };
    let base: usize = sq as usize * size;
    assert(base + size <= 64 * size) by (nonlinear_arith)
        requires
            sq < 64,
            base == sq * size,
    ;
    let mut stamps: Vec<u64> = vec![0u64; size];
    let known = known_magic(rook, sq as usize);
    if try_fill(rook, combos, known, base, 1, table, &mut stamps) {
        return (known, true);
    }
    let mut attempt: u64 = 1;
    while attempt < MAX_MAGIC_ATTEMPTS
        invariant
            !collision_free(combos@, known_magic_value(rook, sq as int), rook),
            forall|x: int| 0 <= x < stamps.len() ==> #[trigger] stamps@[x] <= attempt,
            stamps.len() == size,
            size == table_size(rook),
            base == sq * table_size(rook),
            base + size <= 64 * size,
            table.len() == old(table).len(),
            table.len() == 64 * size,
            forall|i: int|
                0 <= i < table.len() && !(base <= i < base + size) ==> #[trigger] table@[i]
                    == old(table)@[i],
        decreases MAX_MAGIC_ATTEMPTS - attempt,
    {
        attempt += 1;
        let magic = random_u64_few_bits();
        if try_fill(rook, combos, magic, base, attempt, table, &mut stamps) {
            return (magic, true);
        }
    }
    (0, false)
}

/// Over a list that holds each blocker configuration of `sq` with its
/// attacks, being collision-free is being a working multiplier.
proof fn lemma_collision_free_iff(rook: bool, sq: u64, c: Seq<(u64, u64)>, m: u64)
    requires
        sq < 64,
        forall|j: int|
            0 <= j < c.len() ==> subset(#[trigger] c[j].0, slider_mask(rook, sq)) && c[j].1
                == slider_attacks(rook, sq, c[j].0),
        forall|s: u64|
            #[trigger] subset(s, slider_mask(rook, sq)) ==> exists|j: int|
                0 <= j < c.len() && #[trigger] c[j].0 == s,
    ensures
        collision_free(c, m, rook) == magic_ok(rook, sq, m),
{
    if collision_free(c, m, rook) {
        assert forall|o1: u64, o2: u64|
            #![trigger magic_index(o1, m, rook), magic_index(o2, m, rook)]
            subset(o1, slider_mask(rook, sq)) && subset(o2, slider_mask(rook, sq)) && magic_index(
                o1,
                m,
                rook,
            ) == magic_index(o2, m, rook) implies slider_attacks(rook, sq, o1) == slider_attacks(
            rook,
            sq,
            o2,
        ) by {
            let j1 = choose|j: int| 0 <= j < c.len() && #[trigger] c[j].0 == o1;
            let j2 = choose|j: int| 0 <= j < c.len() && #[trigger] c[j].0 == o2;
            assert(c[j1].1 == c[j2].1);
        }
    }
    if magic_ok(rook, sq, m) {
        assert forall|i: int, j: int|
            #![trigger c[i], c[j]]
            0 <= i < c.len() && 0 <= j < c.len() && magic_index(c[i].0, m, rook) == magic_index(
                c[j].0,
                m,
                rook,
            ) implies c[i].1 == c[j].1 by {
            assert(subset(c[i].0, slider_mask(rook, sq)) && subset(c[j].0, slider_mask(rook, sq)));
        }
    }
}

/// Blocker masks, magic multipliers and attack tables of a rook (`rook`) or
/// a bishop, for every square.
pub fn generate_slider_attacks(rook: bool) -> (r: SliderTable)
    ensures
        r.wf(rook),
        r.magics_sound(rook),
{
    let size: usize = if rook {
        4096
    } else {
        512
    };
    let mut masks: Vec<u64> = Vec::new();
    let mut magics: Vec<u64> = Vec::new();
    let mut found: Vec<bool> = Vec::new();
    let mut attacks: Vec<u64> = vec![0u64; 64 * size];
    let mut sq: u64 = 0;
    while sq < 64
        invariant
            sq <= 64,
            size == table_size(rook),
            masks.len() == sq,
            magics.len() == sq,
            found.len() == sq,
            attacks.len() == 64 * size,
            forall|s: u64| s < sq ==> #[trigger] masks@[s as int] == slider_mask(rook, s),
            forall|s: u64|
                s < sq ==> (#[trigger] found@[s as int] ==> magic_ok(rook, s, magics@[s as int])) && (
                magic_ok(rook, s, known_magic_value(rook, s as int)) ==> found@[s as int]),
            forall|s: u64, occ: u64|
                #![trigger magic_index(occ, magics@[s as int], rook)]
                s < sq && found@[s as int] && subset(occ, masks@[s as int]) ==> attacks@[s * table_size(rook)
                    + magic_index(occ, magics@[s as int], rook)] == slider_attacks(rook, s, occ),
        decreases 64 - sq,
    {
        let combos = generate_occupancy_combos(rook, sq);
        let ghost old_attacks = attacks@;
        let (magic, ok) = find_magic(rook, sq, &combos, &mut attacks);
        proof {
            lemma_collision_free_iff(rook, sq, combos@, magic);
            lemma_collision_free_iff(rook, sq, combos@, known_magic_value(rook, sq as int));
        }
        let mask = inner_ray_exec(rook, sq, 0) | inner_ray_exec(rook, sq, 1) | inner_ray_exec(
            rook,
            sq,
            2,
        ) | inner_ray_exec(rook, sq, 3);
        masks.push(mask);
        magics.push(magic);
        found.push(ok);
        assert forall|s: u64, occ: u64|
            #![trigger magic_index(occ, magics@[s as int], rook)]
            s < sq + 1 && found@[s as int] && subset(occ, masks@[s as int]) implies attacks@[s
                * table_size(rook) + magic_index(occ, magics@[s as int], rook)] == slider_attacks(
                rook,
                s,
                occ,
            ) by {
            let k = magic_index(occ, magics@[s as int], rook);
            lemma_index_bound(occ, magics@[s as int], rook);
            if s < sq {
                assert(s * table_size(rook) + k < sq * table_size(rook)) by (nonlinear_arith)
                    requires
                        s < sq,
                        k < table_size(rook),
                ;
                assert(old_attacks[s * table_size(rook) + k] == slider_attacks(rook, s, occ));
            } else {
                assert(found@[sq as int] == ok && magics@[sq as int] == magic);
                assert(masks@[sq as int] == slider_mask(rook, sq));
                let j = choose|j: int| 0 <= j < combos.len() && #[trigger] combos@[j].0 == occ;
                assert(attacks@[sq * table_size(rook) + magic_index(combos@[j].0, magic, rook)]
                    == combos@[j].1);
            }
        }
        sq += 1;
    }
    SliderTable { blockers_masks: masks, magics, found, attacks }
}

/// Attacks of a rook (`rook`) or a bishop on `sq` for the occupancy
/// `board`, through the magic table.
pub fn slider_lookup(t: &SliderTable, rook: bool, sq: u64, board: u64) -> (r: u64)
    requires
        t.wf(rook),
        sq < 64,
    ensures
        r == slider_attacks(rook, sq, board),
{
    let mask = t.blockers_masks[sq as usize];
    let occ = board & mask;
    proof {
        lemma_slider_relevant(rook, sq, board);
        assert(subset(occ, mask)) by (bit_vector)
            requires
                occ == board & mask,
        ;
    }
    if t.found[sq as usize] {
        let size: usize = if rook {
            4096
        } else {
            512
        };
        let k = magic_index_exec(occ, t.magics[sq as usize], rook);
        assert(sq * size + k < 64 * size) by (nonlinear_arith)
            requires
                sq < 64,
                k < size,
        ;
        t.attacks[sq as usize * size + k]
    } else {
        slider_attacks_exec(rook, sq, occ)
    }
}

impl LookUpTable {
    pub fn init() -> (r: LookUpTable)
        ensures
            r.wf(),
            r.rook.magics_sound(true),
            r.bishop.magics_sound(false),
    {
        LookUpTable {
            knight_attacks: generate_knight_mask(),
            king_attacks: generate_king_mask(),
            white_pawn_attacks: generate_white_pawn_attacks(),
            black_pawn_attacks: generate_black_pawn_attacks(),
            rook: generate_rook_attacks(),
            bishop: generate_bishop_attacks(),
        }
    }
}

pub fn generate_rook_attacks() -> (r: SliderTable)
    ensures
        r.wf(true),
        r.magics_sound(true),
{
    generate_slider_attacks(true)
}

pub fn generate_bishop_attacks() -> (r: SliderTable)
    ensures
        r.wf(false),
        r.magics_sound(false),
{
    generate_slider_attacks(false)
}

/// The square `n` steps from (r, f) in direction (dr, df).
pub open spec fn ray_square(r: int, f: int, dr: int, df: int, n: int) -> u64 {
    square_of(r + n * dr, f + n * df)
}

pub open spec fn ray_on_board(r: int, f: int, dr: int, df: int, n: int) -> bool {
    on_board(r + n * dr, f + n * df)
}

/// The squares strictly between (r, f) and its `n`-th step are empty.
pub open spec fn ray_clear(r: int, f: int, dr: int, df: int, occ: u64, n: int) -> bool {
    forall|j: int| 1 <= j < n ==> !has_sq(occ, #[trigger] ray_square(r, f, dr, df, j))
}

proof fn lemma_square_of(r: int, f: int)
    requires
        on_board(r, f),
    ensures
        square_of(r, f) < 64,
        square_of(r, f) / 8 == r,
        square_of(r, f) % 8 == f,
{
    assert((r * 8 + f) / 8 == r && (r * 8 + f) % 8 == f) by (nonlinear_arith)
        requires
            0 <= r < 8,
            0 <= f < 8,
    ;
}

/// A walk holds exactly the squares reached over a clear path.
proof fn lemma_walk_reaches(r: int, f: int, dr: int, df: int, occ: u64, fuel: nat, n: int)
    requires
        on_board(r, f),
        -1 <= dr <= 1,
        -1 <= df <= 1,
        1 <= n <= fuel,
        ray_on_board(r, f, dr, df, n),
        ray_clear(r, f, dr, df, occ, n),
    ensures
        has_sq(walk(r, f, dr, df, occ, fuel), ray_square(r, f, dr, df, n)),
    decreases fuel,
{
    assert(on_board(r + dr, f + df)) by (nonlinear_arith)
        requires
            on_board(r, f),
            on_board(r + n * dr, f + n * df),
            -1 <= dr <= 1,
            -1 <= df <= 1,
            1 <= n,
    ;
    let s = square_of(r + dr, f + df);
    lemma_square_of(r + dr, f + df);
    assert(ray_square(r, f, dr, df, 1) == s);
    if n == 1 {
        assert(ray_square(r, f, dr, df, n) == s);
    } else {
        assert(!has_sq(occ, ray_square(r, f, dr, df, 1)));
        assert forall|j: int| 1 <= j < n - 1 implies !has_sq(
            occ,
            #[trigger] ray_square(r + dr, f + df, dr, df, j),
        ) by {
            assert(ray_square(r + dr, f + df, dr, df, j) == ray_square(r, f, dr, df, j + 1)) by (nonlinear_arith);
        }
        assert(ray_square(r + dr, f + df, dr, df, n - 1) == ray_square(r, f, dr, df, n)) by (nonlinear_arith);
        assert(ray_on_board(r + dr, f + df, dr, df, n - 1)) by (nonlinear_arith)
            requires
                ray_on_board(r, f, dr, df, n),
        ;
        lemma_walk_reaches(r + dr, f + df, dr, df, occ, (fuel - 1) as nat, n - 1);
    }
}

proof fn lemma_walk_only_reaches(r: int, f: int, dr: int, df: int, occ: u64, fuel: nat, t: u64)
    requires
        on_board(r, f),
        -1 <= dr <= 1,
        -1 <= df <= 1,
        t < 64,
        has_sq(walk(r, f, dr, df, occ, fuel), t),
    ensures
        exists|n: int|
            1 <= n <= fuel && ray_on_board(r, f, dr, df, n) && ray_clear(r, f, dr, df, occ, n)
                && #[trigger] ray_square(r, f, dr, df, n) == t,
    decreases fuel,
{
    let s = square_of(r + dr, f + df);
    assert(fuel > 0 && on_board(r + dr, f + df));
    lemma_square_of(r + dr, f + df);
    assert(ray_square(r, f, dr, df, 1) == s);
    assert(ray_on_board(r, f, dr, df, 1));
    if t == s {
        assert(ray_clear(r, f, dr, df, occ, 1));
    } else {
        assert(!has_sq(occ, s));
        lemma_walk_only_reaches(r + dr, f + df, dr, df, occ, (fuel - 1) as nat, t);
        let n = choose|n: int|
            1 <= n <= fuel - 1 && ray_on_board(r + dr, f + df, dr, df, n) && ray_clear(
                r + dr,
                f + df,
                dr,
                df,
                occ,
                n,
            ) && #[trigger] ray_square(r + dr, f + df, dr, df, n) == t;
        assert(ray_square(r + dr, f + df, dr, df, n) == ray_square(r, f, dr, df, n + 1)) by (nonlinear_arith);
        assert(ray_on_board(r, f, dr, df, n + 1)) by (nonlinear_arith)
            requires
                ray_on_board(r + dr, f + df, dr, df, n),
        ;
        assert forall|j: int| 1 <= j < n + 1 implies !has_sq(
            occ,
            #[trigger] ray_square(r, f, dr, df, j),
        ) by {
            if j > 1 {
                assert(ray_square(r, f, dr, df, j) == ray_square(r + dr, f + df, dr, df, j - 1)) by (nonlinear_arith);
            }
        }
    }
}

proof fn lemma_walk_symmetric(a: u64, b: u64, dr: int, df: int, occ: u64)
    requires
        a < 64,
        b < 64,
        -1 <= dr <= 1,
        -1 <= df <= 1,
        has_sq(walk((a / 8) as int, (a % 8) as int, dr, df, occ, 7), b),
    ensures
        has_sq(walk((b / 8) as int, (b % 8) as int, -dr, -df, occ, 7), a),
{
    let ra = (a / 8) as int;
    let fa = (a % 8) as int;
    lemma_walk_only_reaches(ra, fa, dr, df, occ, 7, b);
    let n = choose|n: int|
        1 <= n <= 7 && ray_on_board(ra, fa, dr, df, n) && ray_clear(ra, fa, dr, df, occ, n)
            && #[trigger] ray_square(ra, fa, dr, df, n) == b;
    lemma_square_of(ra + n * dr, fa + n * df);
    let rb = (b / 8) as int;
    let fb = (b % 8) as int;
    assert(rb == ra + n * dr && fb == fa + n * df);
    assert(a == square_of(ra, fa));
    assert(ray_square(rb, fb, -dr, -df, n) == a) by (nonlinear_arith)
        requires
            rb == ra + n * dr,
            fb == fa + n * df,
            a == square_of(ra, fa),
    ;
    assert(ray_on_board(rb, fb, -dr, -df, n)) by (nonlinear_arith)
        requires
            rb == ra + n * dr,
            fb == fa + n * df,
            on_board(ra, fa),
    ;
    assert forall|j: int| 1 <= j < n implies !has_sq(occ, #[trigger] ray_square(rb, fb, -dr, -df, j))
        by {
        assert(ray_square(rb, fb, -dr, -df, j) == ray_square(ra, fa, dr, df, n - j)) by (nonlinear_arith)
            requires
                rb == ra + n * dr,
                fb == fa + n * df,
        ;
    }
    lemma_walk_reaches(rb, fb, -dr, -df, occ, 7, n);
}

/// The index of the direction opposite to direction `d`.
pub open spec fn opposite_direction(rook: bool, d: int) -> int {
    if rook {
        if d == 0 {
            1
        } else if d == 1 {
            0
        } else if d == 2 {
            3
        } else {
            2
        }
    } else {
        3 - d
    }
}

/// A slider on `a` attacks `b` exactly when one on `b` attacks `a`.
pub proof fn lemma_slider_symmetric(rook: bool, a: u64, b: u64, occ: u64)
    requires
        a < 64,
        b < 64,
    ensures
        has_sq(slider_attacks(rook, a, occ), b) == has_sq(slider_attacks(rook, b, occ), a),
{
    assert forall|x: u64, y: u64, d: int|
        x < 64 && y < 64 && 0 <= d < 4 && #[trigger] has_sq(ray(rook, x, d, occ), y) implies has_sq(
        ray(rook, y, opposite_direction(rook, d), occ),
        x,
    ) by {
        lemma_walk_symmetric(x, y, dir_r(rook, d), dir_f(rook, d), occ);
    }
    if has_sq(slider_attacks(rook, a, occ), b) {
        assert(has_sq(ray(rook, a, 0, occ), b) || has_sq(ray(rook, a, 1, occ), b) || has_sq(
            ray(rook, a, 2, occ),
            b,
        ) || has_sq(ray(rook, a, 3, occ), b));
    }
    if has_sq(slider_attacks(rook, b, occ), a) {
        assert(has_sq(ray(rook, b, 0, occ), a) || has_sq(ray(rook, b, 1, occ), a) || has_sq(
            ray(rook, b, 2, occ),
            a,
        ) || has_sq(ray(rook, b, 3, occ), a));
    }
}

proof fn lemma_step_symmetric(a: u64, b: u64, dr: int, df: int)
    requires
        a < 64,
        b < 64,
        has_sq(step(a, dr, df), b),
    ensures
        has_sq(step(b, -dr, -df), a),
{
    let r = a / 8 + dr;
    let f = a % 8 + df;
    assert(on_board(r, f));
    lemma_square_of(r, f);
    lemma_square_of((a / 8) as int, (a % 8) as int);
    assert(a == square_of((a / 8) as int, (a % 8) as int));
}

/// A knight, king or pawn attack seen from the other end: the masks are
/// symmetric, and a white pawn on `a` attacks `b` exactly when a black
/// pawn on `b` attacks `a`.
pub proof fn lemma_leaper_symmetric(a: u64, b: u64)
    requires
        a < 64,
        b < 64,
    ensures
        has_sq(knight_mask(a), b) == has_sq(knight_mask(b), a),
        has_sq(king_mask(a), b) == has_sq(king_mask(b), a),
        has_sq(white_pawn_mask(a), b) == has_sq(black_pawn_mask(b), a),
{
    assert forall|x: u64, y: u64, dr: int, df: int|
        x < 64 && y < 64 && #[trigger] has_sq(step(x, dr, df), y) implies has_sq(
        step(y, -dr, -df),
        x,
    ) by {
        lemma_step_symmetric(x, y, dr, df);
    }
}

} // verus!
