//! Bitboards as sets of squares: membership, and the lemmas that turn
//! bitwise operations into statements about single squares.

use vstd::prelude::*;

verus! {

/// Whether square `i` belongs to bitboard `b`.
pub open spec fn has_sq(b: u64, i: u64) -> bool {
    (b >> i) & 1u64 == 1u64
}

/// The bitboard holding square `i` alone.
pub open spec fn bit(i: u64) -> u64 {
    1u64 << i
}

/// Number of squares of `b` from square `i` upwards.
pub open spec fn popcount_from(b: u64, i: u64) -> nat
    decreases 64 - i,
{
    if i >= 64 {
        0
    } else {
        (if has_sq(b, i) { 1nat } else { 0nat }) + popcount_from(b, (i + 1) as u64)
    }
}

/// Number of squares in a bitboard.
pub open spec fn popcount(b: u64) -> nat {
    popcount_from(b, 0)
}

/// A bitboard without its lowest square.
pub open spec fn clear_lsb(b: u64) -> u64 {
    b & ((b - 1) as u64)
}

/// Lowest square of a non-empty bitboard.
pub open spec fn lsb(b: u64) -> u64 {
    b.trailing_zeros() as u64
}

pub broadcast proof fn lemma_has_sq_or(a: u64, b: u64, i: u64)
    requires
        i < 64,
    ensures
        #[trigger] has_sq(a | b, i) == (has_sq(a, i) || has_sq(b, i)),
{
    assert(((a | b) >> i) & 1u64 == 1u64 <==> ((a >> i) & 1u64 == 1u64 || (b >> i) & 1u64
        == 1u64)) by (bit_vector)
        requires
            i < 64,
    ;
}

pub broadcast proof fn lemma_has_sq_and(a: u64, b: u64, i: u64)
    requires
        i < 64,
    ensures
        #[trigger] has_sq(a & b, i) == (has_sq(a, i) && has_sq(b, i)),
{
    assert(((a & b) >> i) & 1u64 == 1u64 <==> ((a >> i) & 1u64 == 1u64 && (b >> i) & 1u64
        == 1u64)) by (bit_vector)
        requires
            i < 64,
    ;
}

pub broadcast proof fn lemma_has_sq_not(a: u64, i: u64)
    requires
        i < 64,
    ensures
        #[trigger] has_sq(!a, i) == !has_sq(a, i),
{
    assert(((!a) >> i) & 1u64 == 1u64 <==> !((a >> i) & 1u64 == 1u64)) by (bit_vector)
        requires
            i < 64,
    ;
}

pub broadcast proof fn lemma_has_sq_bit(j: u64, i: u64)
    requires
        i < 64,
        j < 64,
    ensures
        #[trigger] has_sq(bit(j), i) == (i == j),
{
    assert(((1u64 << j) >> i) & 1u64 == 1u64 <==> i == j) by (bit_vector)
        requires
            i < 64,
            j < 64,
    ;
}

pub broadcast proof fn lemma_has_sq_zero(i: u64)
    ensures
        #[trigger] has_sq(0u64, i) == false,
{
    assert((0u64 >> i) & 1u64 != 1u64) by (bit_vector);
}

/// Two bitboards with the same squares are equal.
pub proof fn lemma_ext(a: u64, b: u64)
    requires
        forall|i: u64| i < 64 ==> has_sq(a, i) == has_sq(b, i),
    ensures
        a == b,
{
    if a != b {
        let x = a ^ b;
        assert(x != 0) by (bit_vector)
            requires
                a != b,
                x == a ^ b,
        ;
        vstd::std_specs::bits::axiom_u64_trailing_zeros(x);
        let t = x.trailing_zeros() as u64;
        assert(t < 64);
        assert((x >> t) & 1u64 == 1u64);
        assert(has_sq(a, t) != has_sq(b, t)) by (bit_vector)
            requires
                x == a ^ b,
                (x >> t) & 1u64 == 1u64,
                t < 64,
        ;
    }
}

/// A bitboard is empty exactly when it holds no square.
pub proof fn lemma_empty(a: u64)
    ensures
        a == 0 <==> forall|i: u64| i < 64 ==> !has_sq(a, i),
{
    broadcast use group_bits;

    if a != 0 {
        vstd::std_specs::bits::axiom_u64_trailing_zeros(a);
        let t = a.trailing_zeros() as u64;
        assert(has_sq(a, t));
    }
}

/// The lowest square of a non-empty bitboard is in it, and clearing it
/// removes exactly that square.
pub proof fn lemma_lsb(b: u64)
    requires
        b != 0,
    ensures
        lsb(b) < 64,
        has_sq(b, lsb(b)),
        forall|i: u64| i < lsb(b) ==> !has_sq(b, i),
        b & ((b - 1) as u64) < b,
        forall|i: u64| #![trigger has_sq(b & ((b - 1) as u64), i)] i < 64 ==> has_sq(b & ((b - 1) as u64), i) == (has_sq(b, i) && i != lsb(b)),
{
    vstd::std_specs::bits::axiom_u64_trailing_zeros(b);
    let t = lsb(b);
    assert(b & ((b - 1) as u64) < b) by (bit_vector)
        requires
            b != 0,
    ;
    assert forall|i: u64| i < 64 implies has_sq(b & ((b - 1) as u64), i) == (has_sq(b, i) && i != t) by {
        assert(((b & ((b - 1) as u64)) >> i) & 1u64 == 1u64 <==> ((b >> i) & 1u64 == 1u64 && i != t))
            by (bit_vector)
            requires
                i < 64,
                t < 64,
                (b >> t) & 1u64 == 1u64,
                b << ((64 - t) as u64) == 0,
        ;
    }
}

pub broadcast group group_bits {
    lemma_has_sq_or,
    lemma_has_sq_and,
    lemma_has_sq_not,
    lemma_has_sq_bit,
    lemma_has_sq_zero,
}

/// Number of set bits, by clearing the lowest one until none is left.
pub fn count_set_bit(value: u64) -> (r: u8)
    ensures
        r as nat == popcount(value),
{
    let mut count: u8 = 0;
    let mut v = value;
    proof {
        lemma_popcount_from_le(value, 0);
    }
    while v != 0
        invariant
            count as nat + popcount(v) == popcount(value),
            popcount(value) <= 64,
        decreases v,
    {
        proof {
            lemma_lsb(v);
            lemma_popcount_clear(v, 0);
        }
        count += 1;
        v &= v - 1;
    }
    proof {
        lemma_popcount_from_le(0, 0);
        lemma_popcount_zero(0);
    }
    count
}

pub proof fn lemma_popcount_le_64(b: u64)
    ensures
        popcount(b) <= 64,
{
    lemma_popcount_from_le(b, 0);
}

proof fn lemma_popcount_from_le(b: u64, i: u64)
    requires
        i <= 64,
    ensures
        popcount_from(b, i) <= 64 - i,
    decreases 64 - i,
{
    if i < 64 {
        lemma_popcount_from_le(b, (i + 1) as u64);
    }
}

pub proof fn lemma_popcount_zero(i: u64)
    requires
        i <= 64,
    ensures
        popcount_from(0, i) == 0,
    decreases 64 - i,
{
    broadcast use group_bits;

    if i < 64 {
        lemma_popcount_zero((i + 1) as u64);
    }
}

/// Clearing the lowest square takes one square off the count.
pub proof fn lemma_popcount_clear(b: u64, i: u64)
    requires
        b != 0,
        i <= 64,
    ensures
        popcount_from(b & ((b - 1) as u64), i) + (if i <= lsb(b) { 1nat } else { 0nat })
            == popcount_from(b, i),
    decreases 64 - i,
{
    lemma_lsb(b);
    if i < 64 {
        lemma_popcount_clear(b, (i + 1) as u64);
    }
}

proof fn lemma_popcount_from_zero_empty(x: u64, i: u64)
    requires
        i <= 64,
        popcount_from(x, i) == 0,
    ensures
        forall|j: u64| i <= j < 64 ==> !has_sq(x, j),
    decreases 64 - i,
{
    if i < 64 {
        lemma_popcount_from_zero_empty(x, (i + 1) as u64);
    }
}

/// A bitboard of one square is that square's bit, and conversely.
pub proof fn lemma_popcount_one(x: u64)
    ensures
        popcount(x) == 1 <==> (x != 0 && lsb(x) < 64 && x == bit(lsb(x))),
{
    broadcast use group_bits;

    if x != 0 {
        lemma_lsb(x);
        lemma_popcount_clear(x, 0);
        let l = lsb(x);
        let c = clear_lsb(x);
        if popcount(x) == 1 {
            lemma_popcount_from_zero_empty(c, 0);
            assert forall|i: u64| i < 64 implies has_sq(x, i) == has_sq(bit(l), i) by {
                assert(!has_sq(c, i));
            }
            lemma_ext(x, bit(l));
        }
        if x == bit(l) {
            assert forall|i: u64| i < 64 implies !has_sq(c, i) by {}
            lemma_empty(c);
            lemma_popcount_zero(0);
        }
    } else {
        lemma_popcount_zero(0);
    }
}

} // verus!
