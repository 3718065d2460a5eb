use vstd::prelude::*;
use crate::bits::{
    bit, cell, is_bit_reversal, lemma_bit_cell, lemma_bit_ops, lemma_bits_ext, lemma_pop_remove,
    lemma_pop_union, lemma_reversal_involution, pop_upto, popcount,
};
use crate::bitboard::{dir_flips, flips, ray, BitBoard, SENTE};

verus! {

/// Every cell of `a` is a cell of `b`.
pub open spec fn within(a: u64, b: u64) -> bool {
    forall|i: int| 0 <= i < 64 ==> #[trigger] bit(a, i) ==> bit(b, i)
}

proof fn lemma_ray_within(mine: u64, oppo: u64, c: int, step: int, n: nat, rev: u64)
    requires
        within(rev, oppo),
    ensures
        within(ray(mine, oppo, c, step, n, rev), oppo),
    decreases n,
{
    if n == 0 {
        assert forall|i: int| 0 <= i < 64 && #[trigger] bit(0u64, i) implies bit(oppo, i) by {
            lemma_bit_ops(0, 0, i);
        }
    } else if bit(mine, c) {
    } else if bit(oppo, c) {
        let nrev = rev | cell(c);
        assert forall|i: int| 0 <= i < 64 && #[trigger] bit(nrev, i) implies bit(oppo, i) by {
            lemma_bit_ops(rev, cell(c), i);
            lemma_bit_cell(c, i);
        }
        lemma_ray_within(mine, oppo, c + step, step, (n - 1) as nat, nrev);
    } else {
        assert forall|i: int| 0 <= i < 64 && #[trigger] bit(0u64, i) implies bit(oppo, i) by {
            lemma_bit_ops(0, 0, i);
        }
    }
}

/// Only stones of the other colour are ever flipped.
pub proof fn lemma_flips_are_opponent(mine: u64, oppo: u64, x: int, y: int)
    ensures
        within(flips(mine, oppo, x, y), oppo),
{
    assert forall|i: int| 0 <= i < 64 && #[trigger] bit(0u64, i) implies bit(oppo, i) by {
        lemma_bit_ops(0, 0, i);
    }
    let d0 = dir_flips(mine, oppo, x, y, 0);
    let d1 = dir_flips(mine, oppo, x, y, 1);
    let d2 = dir_flips(mine, oppo, x, y, 2);
    let d3 = dir_flips(mine, oppo, x, y, 3);
    let d4 = dir_flips(mine, oppo, x, y, 4);
    let d5 = dir_flips(mine, oppo, x, y, 5);
    let d6 = dir_flips(mine, oppo, x, y, 6);
    let d7 = dir_flips(mine, oppo, x, y, 7);
    lemma_ray_within(mine, oppo, x * 8 + y + 1, 1, crate::bitboard::reach(x, y, 0) as nat, 0u64);
    lemma_ray_within(mine, oppo, x * 8 + y - 1, -1, crate::bitboard::reach(x, y, 1) as nat, 0u64);
    lemma_ray_within(mine, oppo, x * 8 + y + 8, 8, crate::bitboard::reach(x, y, 2) as nat, 0u64);
    lemma_ray_within(mine, oppo, x * 8 + y - 8, -8, crate::bitboard::reach(x, y, 3) as nat, 0u64);
    lemma_ray_within(mine, oppo, x * 8 + y + 9, 9, crate::bitboard::reach(x, y, 4) as nat, 0u64);
    lemma_ray_within(mine, oppo, x * 8 + y + 7, 7, crate::bitboard::reach(x, y, 5) as nat, 0u64);
    lemma_ray_within(mine, oppo, x * 8 + y - 9, -9, crate::bitboard::reach(x, y, 6) as nat, 0u64);
    lemma_ray_within(mine, oppo, x * 8 + y - 7, -7, crate::bitboard::reach(x, y, 7) as nat, 0u64);
    let f = flips(mine, oppo, x, y);
    assert(f == d0 | d1 | d2 | d3 | d4 | d5 | d6 | d7);
    assert forall|i: int| 0 <= i < 64 && #[trigger] bit(f, i) implies bit(oppo, i) by {
        lemma_bit_ops(d0, d1, i);
        lemma_bit_ops(d0 | d1, d2, i);
        lemma_bit_ops(d0 | d1 | d2, d3, i);
        lemma_bit_ops(d0 | d1 | d2 | d3, d4, i);
        lemma_bit_ops(d0 | d1 | d2 | d3 | d4, d5, i);
        lemma_bit_ops(d0 | d1 | d2 | d3 | d4 | d5, d6, i);
        lemma_bit_ops(d0 | d1 | d2 | d3 | d4 | d5 | d6, d7, i);
    }
}

/// The cells of a bit set in terms of single cells.
proof fn lemma_cells(a: u64, b: u64)
    requires
        forall|i: int| 0 <= i < 64 ==> !(#[trigger] bit(a, i) && bit(b, i)),
    ensures
        a & b == 0u64,
{
    assert forall|i: int| 0 <= i < 64 implies #[trigger] bit(a & b, i) == bit(0u64, i) by {
        lemma_bit_ops(a, b, i);
    }
    lemma_bits_ext(a & b, 0u64);
}

/// A stone put on an empty cell of a position where no cell holds both
/// colours leaves a position where no cell holds both colours.
pub proof fn lemma_move_well_formed(b: BitBoard, x: int, y: int)
    requires
        b.well_formed(),
        0 <= x < 8,
        0 <= y < 8,
        !bit(b.stones(), x * 8 + y),
    ensures
        b.after_move(x, y).well_formed(),
{
    let f = b.flips_at(x, y);
    let p = cell(x * 8 + y);
    lemma_flips_are_opponent(b.mine(), b.oppo(), x, y);
    let a = b.after_move(x, y);
    assert forall|i: int| 0 <= i < 64 implies !(#[trigger] bit(a.black, i) && bit(a.white, i)) by {
        lemma_bit_ops(b.black, b.white, i);
        lemma_bit_ops(b.black, f, i);
        lemma_bit_ops(b.black | f, p, i);
        lemma_bit_ops(b.white, f, i);
        lemma_bit_ops(b.white, p, i);
        lemma_bit_ops(b.white | f, p, i);
        lemma_bit_ops(b.black, p, i);
        lemma_bit_ops(b.black ^ f, p, i);
        lemma_bit_ops(b.white ^ f, p, i);
        lemma_bit_cell(x * 8 + y, i);
        lemma_bit_ops(0, 0, i);
    }
    lemma_cells(a.black, a.white);
}

/// The stones, in position `a`, of the side that was to move in `b`.
pub open spec fn moved_side(b: BitBoard, a: BitBoard) -> u64 {
    if b.teban == SENTE {
        a.black
    } else {
        a.white
    }
}

/// The stones, in position `a`, of the side that was not to move in `b`.
pub open spec fn other_side(b: BitBoard, a: BitBoard) -> u64 {
    if b.teban == SENTE {
        a.white
    } else {
        a.black
    }
}

/// A move on an empty cell adds exactly one stone to the board, the mover
/// gains that stone and every flipped one, and the other side loses the
/// flipped ones.
pub proof fn lemma_move_counts(b: BitBoard, x: int, y: int)
    requires
        b.well_formed(),
        0 <= x < 8,
        0 <= y < 8,
        !bit(b.stones(), x * 8 + y),
    ensures
        popcount(b.after_move(x, y).stones()) == popcount(b.stones()) + 1,
        popcount(moved_side(b, b.after_move(x, y))) == popcount(b.mine()) + popcount(b.flips_at(x, y)) + 1,
        popcount(other_side(b, b.after_move(x, y))) + popcount(b.flips_at(x, y)) == popcount(b.oppo()),
{
    let f = b.flips_at(x, y);
    let p = cell(x * 8 + y);
    let m = b.mine();
    let o = b.oppo();
    lemma_flips_are_opponent(m, o, x, y);
    lemma_move_well_formed(b, x, y);
    let a = b.after_move(x, y);
    // the mover's stones: m | f | p, three disjoint parts
    assert forall|i: int| 0 <= i < 64 implies !(#[trigger] bit(m, i) && bit(f, i)) by {
        lemma_bit_ops(b.black, b.white, i);
        lemma_bit_ops(0, 0, i);
    }
    lemma_pop_union(m, f, 64);
    assert forall|i: int| 0 <= i < 64 implies !(#[trigger] bit(m | f, i) && bit(p, i)) by {
        lemma_bit_ops(m, f, i);
        lemma_bit_ops(b.black, b.white, i);
        lemma_bit_cell(x * 8 + y, i);
    }
    lemma_pop_union(m | f, p, 64);
    assert(popcount(p) == 1) by {
        lemma_single_cell_pop(x * 8 + y, 64);
    }
    // the other side's stones: o ^ f
    lemma_pop_remove(o, f, 64);
    // all stones: (m | f | p) | (o ^ f) == (m | o) | p
    let s = b.stones();
    assert forall|i: int| 0 <= i < 64 implies !(#[trigger] bit(s, i) && bit(p, i)) by {
        lemma_bit_cell(x * 8 + y, i);
    }
    lemma_pop_union(s, p, 64);
    assert forall|i: int| 0 <= i < 64 implies #[trigger] bit(a.stones(), i) == bit(s | p, i) by {
        lemma_bit_ops(a.black, a.white, i);
        lemma_bit_ops(s, p, i);
        lemma_bit_ops(b.black, b.white, i);
        lemma_bit_ops(b.black, f, i);
        lemma_bit_ops(b.black | f, p, i);
        lemma_bit_ops(b.white, f, i);
        lemma_bit_ops(b.white | f, p, i);
        lemma_bit_ops(b.black ^ f, p, i);
        lemma_bit_ops(b.white ^ f, p, i);
    }
    lemma_bits_ext(a.stones(), s | p);
}

/// A single cell counts one.
proof fn lemma_single_cell_pop(c: int, n: nat)
    requires
        0 <= c < 64,
        n <= 64,
    ensures
        pop_upto(cell(c), n) == if c < n { 1nat } else { 0nat },
    decreases n,
{
    if n > 0 {
        lemma_single_cell_pop(c, (n - 1) as nat);
        lemma_bit_cell(c, n - 1);
    }
}

/// Turning a position by half a circle twice gives the position back.
pub proof fn lemma_rotate180_twice(b: BitBoard, r: BitBoard, rr: BitBoard)
    requires
        is_bit_reversal(r.black, b.black),
        is_bit_reversal(r.white, b.white),
        is_bit_reversal(rr.black, r.black),
        is_bit_reversal(rr.white, r.white),
    ensures
        rr.black == b.black,
        rr.white == b.white,
{
    lemma_reversal_involution(r.black, b.black, rr.black);
    lemma_reversal_involution(r.white, b.white, rr.white);
}

/// Two passes in a row give the move back to the same side and end the game.
pub proof fn lemma_two_passes(b: BitBoard)
    requires
        b.pass == 0,
        b.teban != i8::MIN,
    ensures
        b.after_pass().after_pass().teban == b.teban,
        b.after_pass().after_pass().pass >= 2,
        b.after_pass().pass < 2,
{
}

} // verus!
