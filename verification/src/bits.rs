use vstd::prelude::*;

verus! {

/// Whether cell `i` (a bit index) is set in the bit set `b`.
/// Indices outside `0..64` are never set.
pub open spec fn bit(b: u64, i: int) -> bool {
    0 <= i < 64 && (b >> (i as u64)) & 1u64 == 1u64
}

/// The single-bit mask of cell `i`, or `0` when `i` is off the board.
pub open spec fn cell(i: int) -> u64 {
    if 0 <= i < 64 {
        1u64 << (i as u64)
    } else {
        0u64
    }
}

/// Number of set bits of `b` among the indices `0..n`.
pub open spec fn pop_upto(b: u64, n: nat) -> nat
    decreases n,
{
    if n == 0 {
        0
    } else {
        pop_upto(b, (n - 1) as nat) + if bit(b, n - 1) { 1nat } else { 0nat }
    }
}

/// Number of set bits of `b`.
pub open spec fn popcount(b: u64) -> nat {
    pop_upto(b, 64)
}

/// `b` with the order of its 64 bits reversed.
pub open spec fn is_bit_reversal(r: u64, b: u64) -> bool {
    forall|i: int| 0 <= i < 64 ==> #[trigger] bit(r, i) == bit(b, 63 - i)
}

/// Set algebra of the bitwise operators, read bit by bit.
pub proof fn lemma_bit_ops(a: u64, b: u64, i: int)
    requires
        0 <= i < 64,
    ensures
        bit(a | b, i) == (bit(a, i) || bit(b, i)),
        bit(a & b, i) == (bit(a, i) && bit(b, i)),
        bit(a ^ b, i) == (bit(a, i) != bit(b, i)),
        bit(!a, i) == !bit(a, i),
        !bit(0u64, i),
        bit(0xffff_ffff_ffff_ffffu64, i),
{
    let s = i as u64;
    assert(
        (((a | b) >> s) & 1u64 == 1u64) == (((a >> s) & 1u64 == 1u64) || ((b >> s) & 1u64 == 1u64))
        && (((a & b) >> s) & 1u64 == 1u64) == (((a >> s) & 1u64 == 1u64) && ((b >> s) & 1u64 == 1u64))
        && (((a ^ b) >> s) & 1u64 == 1u64) == (((a >> s) & 1u64 == 1u64) != ((b >> s) & 1u64 == 1u64))
        && (((!a) >> s) & 1u64 == 1u64) == !((a >> s) & 1u64 == 1u64)
        && !((0u64 >> s) & 1u64 == 1u64)
        && ((0xffff_ffff_ffff_ffffu64 >> s) & 1u64 == 1u64)
    ) by (bit_vector)
        requires
            s < 64,
    ;
}

/// The mask of a cell holds exactly that cell.
pub proof fn lemma_bit_cell(j: int, i: int)
    requires
        0 <= i < 64,
    ensures
        bit(cell(j), i) == (i == j),
{
    if 0 <= j < 64 {
        let s = i as u64;
        let t = j as u64;
        assert((((1u64 << t) >> s) & 1u64 == 1u64) == (s == t)) by (bit_vector)
            requires
                s < 64,
                t < 64,
        ;
    } else {
        lemma_bit_ops(0, 0, i);
    }
}

/// Testing a bit set against a cell mask tells whether the cell is set.
pub proof fn lemma_test_cell(b: u64, i: int)
    ensures
        ((b & cell(i)) != 0u64) == bit(b, i),
{
    if 0 <= i < 64 {
        let s = i as u64;
        assert(((b & (1u64 << s)) != 0u64) == ((b >> s) & 1u64 == 1u64)) by (bit_vector)
            requires
                s < 64,
        ;
    } else {
        assert(b & 0u64 == 0u64) by (bit_vector);
    }
}

/// Shifting a cell mask moves it to the neighbouring cell, or off the board.
pub proof fn lemma_shift_cell(i: int, s: u64)
    requires
        s < 64,
    ensures
        0 <= i ==> cell(i) << s == cell(i + s),
        i < 64 ==> cell(i) >> s == cell(i - s),
{
    if 0 <= i < 64 {
        let t = i as u64;
        assert(t + s < 64 ==> ((1u64 << t) << s) == 1u64 << ((t + s) as u64)) by (bit_vector)
            requires
                s < 64,
                t < 64,
        ;
        assert(t + s >= 64 ==> ((1u64 << t) << s) == 0u64) by (bit_vector)
            requires
                s < 64,
                t < 64,
        ;
        assert(t >= s ==> ((1u64 << t) >> s) == 1u64 << ((t - s) as u64)) by (bit_vector)
            requires
                s < 64,
                t < 64,
        ;
        assert(t < s ==> ((1u64 << t) >> s) == 0u64) by (bit_vector)
            requires
                s < 64,
                t < 64,
        ;
    } else {
        assert((0u64 << s) == 0u64 && (0u64 >> s) == 0u64) by (bit_vector);
    }
}

/// A union of eight sets is empty exactly when each of them is.
pub proof fn lemma_or8_zero(r0: u64, r1: u64, r2: u64, r3: u64, r4: u64, r5: u64, r6: u64, r7: u64)
    ensures
        ((r0 | r1 | r2 | r3 | r4 | r5 | r6 | r7) == 0u64) == (r0 == 0u64 && r1 == 0u64 && r2
            == 0u64 && r3 == 0u64 && r4 == 0u64 && r5 == 0u64 && r6 == 0u64 && r7 == 0u64),
{
    assert(((r0 | r1 | r2 | r3 | r4 | r5 | r6 | r7) == 0u64) == (r0 == 0u64 && r1 == 0u64 && r2
        == 0u64 && r3 == 0u64 && r4 == 0u64 && r5 == 0u64 && r6 == 0u64 && r7 == 0u64))
        by (bit_vector);
}

/// Two bit sets with the same cells are equal.
pub proof fn lemma_bits_ext(a: u64, b: u64)
    requires
        forall|i: int| 0 <= i < 64 ==> #[trigger] bit(a, i) == bit(b, i),
    ensures
        a == b,
{
    assert(bit(a, 0) == bit(b, 0));
    assert(bit(a, 1) == bit(b, 1));
    assert(bit(a, 2) == bit(b, 2));
    assert(bit(a, 3) == bit(b, 3));
    assert(bit(a, 4) == bit(b, 4));
    assert(bit(a, 5) == bit(b, 5));
    assert(bit(a, 6) == bit(b, 6));
    assert(bit(a, 7) == bit(b, 7));
    assert(bit(a, 8) == bit(b, 8));
    assert(bit(a, 9) == bit(b, 9));
    assert(bit(a, 10) == bit(b, 10));
    assert(bit(a, 11) == bit(b, 11));
    assert(bit(a, 12) == bit(b, 12));
    assert(bit(a, 13) == bit(b, 13));
    assert(bit(a, 14) == bit(b, 14));
    assert(bit(a, 15) == bit(b, 15));
    assert(bit(a, 16) == bit(b, 16));
    assert(bit(a, 17) == bit(b, 17));
    assert(bit(a, 18) == bit(b, 18));
    assert(bit(a, 19) == bit(b, 19));
    assert(bit(a, 20) == bit(b, 20));
    assert(bit(a, 21) == bit(b, 21));
    assert(bit(a, 22) == bit(b, 22));
    assert(bit(a, 23) == bit(b, 23));
    assert(bit(a, 24) == bit(b, 24));
    assert(bit(a, 25) == bit(b, 25));
    assert(bit(a, 26) == bit(b, 26));
    assert(bit(a, 27) == bit(b, 27));
    assert(bit(a, 28) == bit(b, 28));
    assert(bit(a, 29) == bit(b, 29));
    assert(bit(a, 30) == bit(b, 30));
    assert(bit(a, 31) == bit(b, 31));
    assert(bit(a, 32) == bit(b, 32));
    assert(bit(a, 33) == bit(b, 33));
    assert(bit(a, 34) == bit(b, 34));
    assert(bit(a, 35) == bit(b, 35));
    assert(bit(a, 36) == bit(b, 36));
    assert(bit(a, 37) == bit(b, 37));
    assert(bit(a, 38) == bit(b, 38));
    assert(bit(a, 39) == bit(b, 39));
    assert(bit(a, 40) == bit(b, 40));
    assert(bit(a, 41) == bit(b, 41));
    assert(bit(a, 42) == bit(b, 42));
    assert(bit(a, 43) == bit(b, 43));
    assert(bit(a, 44) == bit(b, 44));
    assert(bit(a, 45) == bit(b, 45));
    assert(bit(a, 46) == bit(b, 46));
    assert(bit(a, 47) == bit(b, 47));
    assert(bit(a, 48) == bit(b, 48));
    assert(bit(a, 49) == bit(b, 49));
    assert(bit(a, 50) == bit(b, 50));
    assert(bit(a, 51) == bit(b, 51));
    assert(bit(a, 52) == bit(b, 52));
    assert(bit(a, 53) == bit(b, 53));
    assert(bit(a, 54) == bit(b, 54));
    assert(bit(a, 55) == bit(b, 55));
    assert(bit(a, 56) == bit(b, 56));
    assert(bit(a, 57) == bit(b, 57));
    assert(bit(a, 58) == bit(b, 58));
    assert(bit(a, 59) == bit(b, 59));
    assert(bit(a, 60) == bit(b, 60));
    assert(bit(a, 61) == bit(b, 61));
    assert(bit(a, 62) == bit(b, 62));
    assert(bit(a, 63) == bit(b, 63));
    assert(a == b) by (bit_vector)
        requires
            ((a >> 0u64) & 1u64 == 1u64) == ((b >> 0u64) & 1u64 == 1u64),
            ((a >> 1u64) & 1u64 == 1u64) == ((b >> 1u64) & 1u64 == 1u64),
            ((a >> 2u64) & 1u64 == 1u64) == ((b >> 2u64) & 1u64 == 1u64),
            ((a >> 3u64) & 1u64 == 1u64) == ((b >> 3u64) & 1u64 == 1u64),
            ((a >> 4u64) & 1u64 == 1u64) == ((b >> 4u64) & 1u64 == 1u64),
            ((a >> 5u64) & 1u64 == 1u64) == ((b >> 5u64) & 1u64 == 1u64),
            ((a >> 6u64) & 1u64 == 1u64) == ((b >> 6u64) & 1u64 == 1u64),
            ((a >> 7u64) & 1u64 == 1u64) == ((b >> 7u64) & 1u64 == 1u64),
            ((a >> 8u64) & 1u64 == 1u64) == ((b >> 8u64) & 1u64 == 1u64),
            ((a >> 9u64) & 1u64 == 1u64) == ((b >> 9u64) & 1u64 == 1u64),
            ((a >> 10u64) & 1u64 == 1u64) == ((b >> 10u64) & 1u64 == 1u64),
            ((a >> 11u64) & 1u64 == 1u64) == ((b >> 11u64) & 1u64 == 1u64),
            ((a >> 12u64) & 1u64 == 1u64) == ((b >> 12u64) & 1u64 == 1u64),
            ((a >> 13u64) & 1u64 == 1u64) == ((b >> 13u64) & 1u64 == 1u64),
            ((a >> 14u64) & 1u64 == 1u64) == ((b >> 14u64) & 1u64 == 1u64),
            ((a >> 15u64) & 1u64 == 1u64) == ((b >> 15u64) & 1u64 == 1u64),
            ((a >> 16u64) & 1u64 == 1u64) == ((b >> 16u64) & 1u64 == 1u64),
            ((a >> 17u64) & 1u64 == 1u64) == ((b >> 17u64) & 1u64 == 1u64),
            ((a >> 18u64) & 1u64 == 1u64) == ((b >> 18u64) & 1u64 == 1u64),
            ((a >> 19u64) & 1u64 == 1u64) == ((b >> 19u64) & 1u64 == 1u64),
            ((a >> 20u64) & 1u64 == 1u64) == ((b >> 20u64) & 1u64 == 1u64),
            ((a >> 21u64) & 1u64 == 1u64) == ((b >> 21u64) & 1u64 == 1u64),
            ((a >> 22u64) & 1u64 == 1u64) == ((b >> 22u64) & 1u64 == 1u64),
            ((a >> 23u64) & 1u64 == 1u64) == ((b >> 23u64) & 1u64 == 1u64),
            ((a >> 24u64) & 1u64 == 1u64) == ((b >> 24u64) & 1u64 == 1u64),
            ((a >> 25u64) & 1u64 == 1u64) == ((b >> 25u64) & 1u64 == 1u64),
            ((a >> 26u64) & 1u64 == 1u64) == ((b >> 26u64) & 1u64 == 1u64),
            ((a >> 27u64) & 1u64 == 1u64) == ((b >> 27u64) & 1u64 == 1u64),
            ((a >> 28u64) & 1u64 == 1u64) == ((b >> 28u64) & 1u64 == 1u64),
            ((a >> 29u64) & 1u64 == 1u64) == ((b >> 29u64) & 1u64 == 1u64),
            ((a >> 30u64) & 1u64 == 1u64) == ((b >> 30u64) & 1u64 == 1u64),
            ((a >> 31u64) & 1u64 == 1u64) == ((b >> 31u64) & 1u64 == 1u64),
            ((a >> 32u64) & 1u64 == 1u64) == ((b >> 32u64) & 1u64 == 1u64),
            ((a >> 33u64) & 1u64 == 1u64) == ((b >> 33u64) & 1u64 == 1u64),
            ((a >> 34u64) & 1u64 == 1u64) == ((b >> 34u64) & 1u64 == 1u64),
            ((a >> 35u64) & 1u64 == 1u64) == ((b >> 35u64) & 1u64 == 1u64),
            ((a >> 36u64) & 1u64 == 1u64) == ((b >> 36u64) & 1u64 == 1u64),
            ((a >> 37u64) & 1u64 == 1u64) == ((b >> 37u64) & 1u64 == 1u64),
            ((a >> 38u64) & 1u64 == 1u64) == ((b >> 38u64) & 1u64 == 1u64),
            ((a >> 39u64) & 1u64 == 1u64) == ((b >> 39u64) & 1u64 == 1u64),
            ((a >> 40u64) & 1u64 == 1u64) == ((b >> 40u64) & 1u64 == 1u64),
            ((a >> 41u64) & 1u64 == 1u64) == ((b >> 41u64) & 1u64 == 1u64),
            ((a >> 42u64) & 1u64 == 1u64) == ((b >> 42u64) & 1u64 == 1u64),
            ((a >> 43u64) & 1u64 == 1u64) == ((b >> 43u64) & 1u64 == 1u64),
            ((a >> 44u64) & 1u64 == 1u64) == ((b >> 44u64) & 1u64 == 1u64),
            ((a >> 45u64) & 1u64 == 1u64) == ((b >> 45u64) & 1u64 == 1u64),
            ((a >> 46u64) & 1u64 == 1u64) == ((b >> 46u64) & 1u64 == 1u64),
            ((a >> 47u64) & 1u64 == 1u64) == ((b >> 47u64) & 1u64 == 1u64),
            ((a >> 48u64) & 1u64 == 1u64) == ((b >> 48u64) & 1u64 == 1u64),
            ((a >> 49u64) & 1u64 == 1u64) == ((b >> 49u64) & 1u64 == 1u64),
            ((a >> 50u64) & 1u64 == 1u64) == ((b >> 50u64) & 1u64 == 1u64),
            ((a >> 51u64) & 1u64 == 1u64) == ((b >> 51u64) & 1u64 == 1u64),
            ((a >> 52u64) & 1u64 == 1u64) == ((b >> 52u64) & 1u64 == 1u64),
            ((a >> 53u64) & 1u64 == 1u64) == ((b >> 53u64) & 1u64 == 1u64),
            ((a >> 54u64) & 1u64 == 1u64) == ((b >> 54u64) & 1u64 == 1u64),
            ((a >> 55u64) & 1u64 == 1u64) == ((b >> 55u64) & 1u64 == 1u64),
            ((a >> 56u64) & 1u64 == 1u64) == ((b >> 56u64) & 1u64 == 1u64),
            ((a >> 57u64) & 1u64 == 1u64) == ((b >> 57u64) & 1u64 == 1u64),
            ((a >> 58u64) & 1u64 == 1u64) == ((b >> 58u64) & 1u64 == 1u64),
            ((a >> 59u64) & 1u64 == 1u64) == ((b >> 59u64) & 1u64 == 1u64),
            ((a >> 60u64) & 1u64 == 1u64) == ((b >> 60u64) & 1u64 == 1u64),
            ((a >> 61u64) & 1u64 == 1u64) == ((b >> 61u64) & 1u64 == 1u64),
            ((a >> 62u64) & 1u64 == 1u64) == ((b >> 62u64) & 1u64 == 1u64),
            ((a >> 63u64) & 1u64 == 1u64) == ((b >> 63u64) & 1u64 == 1u64),
    ;
}

/// Counting the cells of a union of disjoint sets.
pub proof fn lemma_pop_union(a: u64, b: u64, n: nat)
    requires
        n <= 64,
        forall|i: int| 0 <= i < n ==> !(#[trigger] bit(a, i) && bit(b, i)),
    ensures
        pop_upto(a | b, n) == pop_upto(a, n) + pop_upto(b, n),
    decreases n,
{
    if n > 0 {
        lemma_pop_union(a, b, (n - 1) as nat);
        lemma_bit_ops(a, b, n - 1);
    }
}

/// Counting the cells left after removing a subset.
pub proof fn lemma_pop_remove(a: u64, b: u64, n: nat)
    requires
        n <= 64,
        forall|i: int| 0 <= i < n ==> #[trigger] bit(b, i) ==> bit(a, i),
    ensures
        pop_upto(a ^ b, n) + pop_upto(b, n) == pop_upto(a, n),
    decreases n,
{
    if n > 0 {
        lemma_pop_remove(a, b, (n - 1) as nat);
        lemma_bit_ops(a, b, n - 1);
    }
}

/// The count of cells is bounded by the number of indices looked at.
pub proof fn lemma_pop_bound(a: u64, n: nat)
    ensures
        pop_upto(a, n) <= n,
    decreases n,
{
    if n > 0 {
        lemma_pop_bound(a, (n - 1) as nat);
    }
}

/// Number of set bits, counted one bit at a time.
pub fn count_ones(b: u64) -> (r: u32)
    ensures
        r as nat == popcount(b),
        r <= 64,
{
    let mut r: u32 = 0;
    let mut i: u64 = 0;
    while i < 64
        invariant
            i <= 64,
            r as nat == pop_upto(b, i as nat),
            r <= i,
        decreases 64 - i,
    {
        proof {
            lemma_test_cell(b, i as int);
        }
        if b & (1u64 << i) != 0 {
            r = r + 1;
        }
        i = i + 1;
    }
    r
}

/// The bits of `b` in reverse order: bit `i` of the result is bit `63 - i` of `b`.
pub fn reverse_bits(b: u64) -> (r: u64)
    ensures
        is_bit_reversal(r, b),
{
    let mut r: u64 = 0;
    let mut i: u64 = 0;
    proof {
        assert forall|j: int| 0 <= j < 64 implies !#[trigger] bit(r, j) by {
            lemma_bit_ops(0, 0, j);
        }
    }
    while i < 64
        invariant
            i <= 64,
            forall|j: int| 0 <= j < 64 ==> #[trigger] bit(r, j) == (63 - i < j && bit(b, 63 - j)),
        decreases 64 - i,
    {
        proof {
            lemma_test_cell(b, i as int);
        }
        if b & (1u64 << i) != 0 {
            let ghost old_r = r;
            r = r | (1u64 << (63 - i));
            proof {
                assert forall|j: int| 0 <= j < 64 implies #[trigger] bit(r, j) == (63 - (i + 1) < j
                    && bit(b, 63 - j)) by {
                    lemma_bit_ops(old_r, cell(63 - i), j);
                    lemma_bit_cell(63 - i, j);
                }
            }
        } else {
            proof {
                assert forall|j: int| 0 <= j < 64 implies #[trigger] bit(r, j) == (63 - (i + 1) < j
                    && bit(b, 63 - j)) by {
                    if j == 63 - i {
                    }
                }
            }
        }
        i = i + 1;
    }
    r
}

/// Reversing the bit order twice gives back the bits.
pub proof fn lemma_reversal_involution(r: u64, b: u64, rr: u64)
    requires
        is_bit_reversal(r, b),
        is_bit_reversal(rr, r),
    ensures
        rr == b,
{
    assert forall|i: int| 0 <= i < 64 implies #[trigger] bit(rr, i) == bit(b, i) by {
        assert(bit(rr, i) == bit(r, 63 - i));
        assert(bit(r, 63 - i) == bit(b, 63 - (63 - i)));
    }
    lemma_bits_ext(rr, b);
}

} // verus!
