//! Facts about single bits of a `u64`.
use vstd::prelude::*;

verus! {

/// Whether bit `i` of `m` is set (bits at 64 and above are never set).
pub open spec fn bit(m: u64, i: u64) -> bool {
    i < 64 && (m >> i) & 1 == 1
}

/// No bit of zero is set.
pub proof fn lemma_bit_zero(i: u64)
    ensures
        !bit(0, i),
{
    assert((0u64 >> i) & 1 == 0) by (bit_vector);
}

/// Whether `m` holds four set bits spaced `s` apart.
pub open spec fn aligned(m: u64, s: u64) -> bool {
    exists|i: u64|
        #![trigger bit(m, i)]
        bit(m, i) && bit(m, (i + s) as u64) && bit(m, (i + 2 * s) as u64) && bit(
            m,
            (i + 3 * s) as u64,
        )
}

/// Setting bit `k` changes bit `k` alone.
pub proof fn lemma_bit_set(m: u64, k: u64, i: u64)
    requires
        k < 64,
    ensures
        bit(m | (1u64 << k), i) == (bit(m, i) || i == k),
{
    assert(i < 64 ==> (((m | (1u64 << k)) >> i) & 1 == 1) == (((m >> i) & 1 == 1) || i == k))
        by (bit_vector)
        requires
            k < 64,
    ;
}

/// Clearing bit `k` changes bit `k` alone.
pub proof fn lemma_bit_clear(m: u64, k: u64, i: u64)
    requires
        k < 64,
    ensures
        bit(m & (u64::MAX ^ (1u64 << k)), i) == (bit(m, i) && i != k),
{
    assert(i < 64 ==> (((m & (u64::MAX ^ (1u64 << k))) >> i) & 1 == 1) == (((m >> i) & 1 == 1)
        && i != k)) by (bit_vector)
        requires
            k < 64,
    ;
}

/// Bits of a conjunction and of a disjunction.
pub proof fn lemma_bit_and_or(a: u64, b: u64, i: u64)
    ensures
        bit(a & b, i) == (bit(a, i) && bit(b, i)),
        bit(a | b, i) == (bit(a, i) || bit(b, i)),
{
    assert(i < 64 ==> ((((a & b) >> i) & 1 == 1) == (((a >> i) & 1 == 1) && ((b >> i) & 1 == 1))
        && (((a | b) >> i) & 1 == 1) == (((a >> i) & 1 == 1) || ((b >> i) & 1 == 1))))
        by (bit_vector);
}

/// Bits of an exclusive or.
pub proof fn lemma_bit_xor(a: u64, b: u64, i: u64)
    ensures
        bit(a ^ b, i) == (i < 64 && bit(a, i) != bit(b, i)),
{
    assert(i < 64 ==> ((((a ^ b) >> i) & 1 == 1) == (((a >> i) & 1 == 1) != ((b >> i) & 1 == 1))))
        by (bit_vector);
}

/// A bit of a right shift is a higher bit of the original.
pub proof fn lemma_bit_shr(m: u64, s: u64, i: u64)
    requires
        i < 64,
        s < 64,
    ensures
        bit(m >> s, i) == bit(m, (i + s) as u64),
{
    assert(((m >> s) >> i) & 1 == 1 <==> (i + s < 64 && (m >> ((i + s) as u64)) & 1 == 1))
        by (bit_vector)
        requires
            i < 64,
            s < 64,
    ;
}

/// A non-zero word has a set bit.
pub proof fn lemma_nonzero_has_bit(x: u64)
    ensures
        x != 0 <==> exists|i: u64| bit(x, i),
    decreases x,
{
    if x != 0 {
        if x & 1 == 1 {
            assert(x >> 0u64 == x) by (bit_vector);
            assert(bit(x, 0));
        } else {
            let y = x >> 1u64;
            assert(y != 0 && y < x) by (bit_vector)
                requires
                    y == x >> 1u64,
                    x != 0,
                    x & 1 != 1,
            ;
            lemma_nonzero_has_bit(y);
            let j = choose|j: u64| bit(y, j);
            assert(j < 63 && (y >> j) & 1 == 1 ==> (x >> ((j + 1) as u64)) & 1 == 1) by (bit_vector)
                requires
                    y == x >> 1u64,
            ;
            assert((y >> j) & 1 == 1 ==> j < 63) by (bit_vector)
                requires
                    y == x >> 1u64,
                    j < 64,
            ;
            assert(bit(x, (j + 1) as u64));
        }
    } else {
        assert forall|i: u64| !bit(x, i) by {
            assert(x == 0 ==> (x >> i) & 1 == 0) by (bit_vector);
        }
    }
}

/// Two words that agree on every bit are equal.
pub proof fn lemma_bits_equal(a: u64, b: u64)
    requires
        forall|i: u64| bit(a, i) == bit(b, i),
    ensures
        a == b,
{
    let x = a ^ b;
    if x != 0 {
        lemma_nonzero_has_bit(x);
        let i = choose|i: u64| bit(x, i);
        assert(i < 64 && ((a ^ b) >> i) & 1 == 1 ==> ((a >> i) & 1 == 1) != ((b >> i) & 1 == 1))
            by (bit_vector);
        assert(bit(a, i) != bit(b, i));
    }
    assert(a ^ b == 0 ==> a == b) by (bit_vector);
}

} // verus!
