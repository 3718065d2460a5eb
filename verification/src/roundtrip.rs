use vstd::prelude::*;
use crate::bits::{bit, lemma_bit_ops, lemma_bits_ext};
use crate::bitboard::{stone, BitBoard, BLANK, GOTE, NONE, SENTE};
use crate::notation::{
    bitptn, emit_run, rfen_off_board, rfen_parse, rfen_row, rfen_rows, rfen_scan, rfen_step, rfen_teban,
    rfen_text, rfen_turn, rle_from, row_colors, run_letter, RfenScan,
};
use crate::text::{is_ws, words};

verus! {

/// The state after reading `s` from state `st`.
pub open spec fn scan_from(st: RfenScan, s: Seq<char>) -> RfenScan
    decreases s.len(),
{
    if s.len() == 0 {
        st
    } else {
        rfen_step(scan_from(st, s.drop_last()), s.last())
    }
}

/// The state before anything is read.
pub open spec fn scan_start() -> RfenScan {
    RfenScan::Go { black: 0, white: 0, x: 0, y: 0 }
}

proof fn lemma_scan_concat(st: RfenScan, a: Seq<char>, b: Seq<char>)
    ensures
        scan_from(st, a + b) == scan_from(scan_from(st, a), b),
    decreases b.len(),
{
    if b.len() == 0 {
        assert(a + b == a);
    } else {
        lemma_scan_concat(st, a, b.drop_last());
        assert((a + b).drop_last() == a + b.drop_last());
        assert((a + b).last() == b.last());
    }
}

proof fn lemma_scan_prefix(s: Seq<char>, n: nat)
    requires
        n <= s.len(),
    ensures
        rfen_scan(s, n) == scan_from(scan_start(), s.subrange(0, n as int)),
    decreases n,
{
    if n > 0 {
        lemma_scan_prefix(s, (n - 1) as nat);
        assert(s.subrange(0, n as int).drop_last() == s.subrange(0, n - 1));
    }
}

/// `b` holds exactly the cells of `src` in the rows before `y` and in row
/// `y` before column `x`.
pub open spec fn agrees(b: u64, src: u64, y: int, x: int) -> bool {
    forall|i: int|
        0 <= i < 64 ==> #[trigger] bit(b, i) == (bit(src, i) && (i % 8 < y || (i % 8 == y && i / 8 < x)))
}

/// Reading has reached column `x` of row `y` with the stones of `black`
/// and `white` seen so far.
pub open spec fn go_at(st: RfenScan, black: u64, white: u64, y: int, x: int) -> bool {
    st matches RfenScan::Go { black: b, white: w, x: xx, y: yy } && xx == x && yy == y && agrees(b, black, y, x)
        && agrees(w, white, y, x)
}

/// The `n` cells of row `y` from column `x` on all have colour `c`.
pub open spec fn run_of(black: u64, white: u64, y: int, x: int, n: int, c: i8) -> bool {
    forall|k: int| x <= k < x + n ==> #[trigger] stone(black, white, k * 8 + y) == c
}

/// A run pattern shifted to `(x, y)` covers columns `x..x + n` of row `y`.
proof fn lemma_bitptn(n: int, x: int, y: int, i: int)
    requires
        1 <= n,
        0 <= x,
        x + n <= 8,
        0 <= y < 8,
        0 <= i < 64,
    ensures
        bit(bitptn(n) << ((x * 8 + y) as u64), i) == (i % 8 == y && x <= i / 8 < x + n),
{
    let xs = x as u64;
    let ys = y as u64;
    let iu = i as u64;
    let sh = (x * 8 + y) as u64;
    assert(iu % 8 == i % 8 && iu / 8 == i / 8);
    if n == 1 {
        assert((((0x1u64 << sh) >> iu) & 1u64 == 1u64) == (iu % 8 == ys && xs <= iu / 8 && iu / 8 < xs + 1))
            by (bit_vector)
            requires
                xs + 1 <= 8,
                ys < 8,
                iu < 64,
                sh == xs * 8 + ys,
        ;
    } else if n == 2 {
        assert((((0x101u64 << sh) >> iu) & 1u64 == 1u64) == (iu % 8 == ys && xs <= iu / 8 && iu / 8 < xs + 2))
            by (bit_vector)
            requires
                xs + 2 <= 8,
                ys < 8,
                iu < 64,
                sh == xs * 8 + ys,
        ;
    } else if n == 3 {
        assert((((0x10101u64 << sh) >> iu) & 1u64 == 1u64) == (iu % 8 == ys && xs <= iu / 8 && iu / 8 < xs
            + 3)) by (bit_vector)
            requires
                xs + 3 <= 8,
                ys < 8,
                iu < 64,
                sh == xs * 8 + ys,
        ;
    } else if n == 4 {
        assert((((0x1010101u64 << sh) >> iu) & 1u64 == 1u64) == (iu % 8 == ys && xs <= iu / 8 && iu / 8 < xs
            + 4)) by (bit_vector)
            requires
                xs + 4 <= 8,
                ys < 8,
                iu < 64,
                sh == xs * 8 + ys,
        ;
    } else if n == 5 {
        assert((((0x101010101u64 << sh) >> iu) & 1u64 == 1u64) == (iu % 8 == ys && xs <= iu / 8 && iu / 8
            < xs + 5)) by (bit_vector)
            requires
                xs + 5 <= 8,
                ys < 8,
                iu < 64,
                sh == xs * 8 + ys,
        ;
    } else if n == 6 {
        assert((((0x10101010101u64 << sh) >> iu) & 1u64 == 1u64) == (iu % 8 == ys && xs <= iu / 8 && iu / 8
            < xs + 6)) by (bit_vector)
            requires
                xs + 6 <= 8,
                ys < 8,
                iu < 64,
                sh == xs * 8 + ys,
        ;
    } else if n == 7 {
        assert((((0x1010101010101u64 << sh) >> iu) & 1u64 == 1u64) == (iu % 8 == ys && xs <= iu / 8 && iu
            / 8 < xs + 7)) by (bit_vector)
            requires
                xs + 7 <= 8,
                ys < 8,
                iu < 64,
                sh == xs * 8 + ys,
        ;
    } else {
        assert((((0x101010101010101u64 << sh) >> iu) & 1u64 == 1u64) == (iu % 8 == ys && xs <= iu / 8
            && iu / 8 < xs + 8)) by (bit_vector)
            requires
                xs + 8 <= 8,
                ys < 8,
                iu < 64,
                sh == xs * 8 + ys,
        ;
    }
}

/// No cell holds both colours, cell by cell.
proof fn lemma_disjoint(black: u64, white: u64, i: int)
    requires
        black & white == 0u64,
        0 <= i < 64,
    ensures
        !(bit(black, i) && bit(white, i)),
{
    lemma_bit_ops(black, white, i);
    lemma_bit_ops(0, 0, i);
}

/// Reading the letter of a run of `n` cells of colour `c` moves past them
/// and records their stones.
proof fn lemma_run_scan(black: u64, white: u64, y: int, x: int, n: int, c: i8, st: RfenScan)
    requires
        black & white == 0u64,
        0 <= y < 8,
        0 <= x,
        1 <= n,
        x + n <= 8,
        c == SENTE || c == GOTE || c == BLANK,
        run_of(black, white, y, x, n, c),
        go_at(st, black, white, y, x),
    ensures
        go_at(scan_from(st, emit_run(c, n)), black, white, y, x + n),
{
    let ch = run_letter(c, n);
    assert(emit_run(c, n) == seq![ch]);
    assert(seq![ch].drop_last() == Seq::<char>::empty());
    assert(scan_from(st, Seq::<char>::empty()) == st);
    assert(scan_from(st, seq![ch]) == rfen_step(st, ch));
    let b = st->black;
    let w = st->white;
    let r = rfen_step(st, ch);
    assert(x * 8 + y < 64) by (nonlinear_arith)
        requires
            0 <= x < 8,
            0 <= y < 8,
    ;
    if c == SENTE {
        assert(ch as u32 == 64 + n);
        let run = bitptn(n) << ((x * 8 + y) as u64);
        assert(r == RfenScan::Go { black: b | run, white: w, x: x + n, y });
        assert forall|i: int| 0 <= i < 64 implies #[trigger] bit(b | run, i) == (bit(black, i) && (i % 8 < y || (
            i % 8 == y && i / 8 < x + n))) by {
            lemma_bit_ops(b, run, i);
            lemma_bitptn(n, x, y, i);
            if i % 8 == y && x <= i / 8 < x + n {
                let k = i / 8;
                assert(i == k * 8 + y);
                assert(stone(black, white, k * 8 + y) == c);
            }
        }
        assert forall|i: int| 0 <= i < 64 implies #[trigger] bit(w, i) == (bit(white, i) && (i % 8 < y || (i
            % 8 == y && i / 8 < x + n))) by {
            if i % 8 == y && x <= i / 8 < x + n {
                let k = i / 8;
                assert(i == k * 8 + y);
                assert(stone(black, white, k * 8 + y) == c);
                lemma_disjoint(black, white, i);
            }
        }
    } else if c == GOTE {
        assert(ch as u32 == 96 + n);
        let run = bitptn(n) << ((x * 8 + y) as u64);
        assert(r == RfenScan::Go { black: b, white: w | run, x: x + n, y });
        assert forall|i: int| 0 <= i < 64 implies #[trigger] bit(w | run, i) == (bit(white, i) && (i % 8 < y || (
            i % 8 == y && i / 8 < x + n))) by {
            lemma_bit_ops(w, run, i);
            lemma_bitptn(n, x, y, i);
            if i % 8 == y && x <= i / 8 < x + n {
                let k = i / 8;
                assert(i == k * 8 + y);
                assert(stone(black, white, k * 8 + y) == c);
            }
        }
        assert forall|i: int| 0 <= i < 64 implies #[trigger] bit(b, i) == (bit(black, i) && (i % 8 < y || (i
            % 8 == y && i / 8 < x + n))) by {
            if i % 8 == y && x <= i / 8 < x + n {
                let k = i / 8;
                assert(i == k * 8 + y);
                assert(stone(black, white, k * 8 + y) == c);
            }
        }
    } else {
        assert(ch as u32 == 48 + n);
        assert(r == RfenScan::Go { black: b, white: w, x: x + n, y });
        assert forall|i: int| 0 <= i < 64 implies #[trigger] bit(b, i) == (bit(black, i) && (i % 8 < y || (i
            % 8 == y && i / 8 < x + n))) by {
            if i % 8 == y && x <= i / 8 < x + n {
                let k = i / 8;
                assert(i == k * 8 + y);
                assert(stone(black, white, k * 8 + y) == c);
            }
        }
        assert forall|i: int| 0 <= i < 64 implies #[trigger] bit(w, i) == (bit(white, i) && (i % 8 < y || (i
            % 8 == y && i / 8 < x + n))) by {
            if i % 8 == y && x <= i / 8 < x + n {
                let k = i / 8;
                assert(i == k * 8 + y);
                assert(stone(black, white, k * 8 + y) == c);
            }
        }
    }
}

/// The colour of a cell is one of the three.
proof fn lemma_stone_colour(black: u64, white: u64, i: int)
    ensures
        stone(black, white, i) == SENTE || stone(black, white, i) == GOTE || stone(black, white, i) == BLANK,
{
}

/// Reading the run-length text of row `y` from column `i - count` on, with
/// a pending run of `count` cells of colour `old`, reaches the end of the row.
proof fn lemma_rle_scan(black: u64, white: u64, y: int, i: int, old: i8, count: int, st: RfenScan)
    requires
        black & white == 0u64,
        0 <= y < 8,
        0 <= count <= i <= 8,
        count == 0 ==> (i == 0 && old == NONE),
        count > 0 ==> (old == SENTE || old == GOTE || old == BLANK) && run_of(black, white, y, i - count, count, old),
        go_at(st, black, white, y, i - count),
    ensures
        go_at(scan_from(st, rle_from(row_colors(black, white, y), i, old, count)), black, white, y, 8),
    decreases 8 - i,
{
    let s = row_colors(black, white, y);
    if i >= 8 {
        lemma_run_scan(black, white, y, i - count, count, old, st);
    } else if s[i] == old {
        assert(s[i] == stone(black, white, i * 8 + y));
        assert(run_of(black, white, y, i + 1 - (count + 1), count + 1, old));
        lemma_rle_scan(black, white, y, i + 1, old, count + 1, st);
    } else {
        lemma_scan_concat(st, emit_run(old, count), rle_from(s, i + 1, s[i], 1));
        let st2 = scan_from(st, emit_run(old, count));
        if count > 0 {
            lemma_run_scan(black, white, y, i - count, count, old, st);
        } else {
            assert(emit_run(old, count) == Seq::<char>::empty());
            assert(scan_from(st, Seq::<char>::empty()) == st);
        }
        assert(s[i] == stone(black, white, i * 8 + y));
        lemma_stone_colour(black, white, i * 8 + y);
        assert(run_of(black, white, y, i, 1, s[i]));
        lemma_rle_scan(black, white, y, i + 1, s[i], 1, st2);
    }
}

/// Reading the RFEN rows `0..n` from the start ends at the end of row `n - 1`.
proof fn lemma_rows_scan(black: u64, white: u64, n: nat)
    requires
        black & white == 0u64,
        1 <= n <= 8,
    ensures
        go_at(scan_from(scan_start(), rfen_rows(black, white, n)), black, white, n - 1, 8),
    decreases n,
{
    if n == 1 {
        assert forall|i: int| 0 <= i < 64 implies #[trigger] bit(0u64, i) == (bit(black, i) && (i % 8 < 0 || (i % 8
            == 0 && i / 8 < 0))) by {
            lemma_bit_ops(0, 0, i);
        }
        assert forall|i: int| 0 <= i < 64 implies #[trigger] bit(0u64, i) == (bit(white, i) && (i % 8 < 0 || (i % 8
            == 0 && i / 8 < 0))) by {
            lemma_bit_ops(0, 0, i);
        }
        lemma_rle_scan(black, white, 0, 0, NONE, 0, scan_start());
    } else {
        let prev = rfen_rows(black, white, (n - 1) as nat);
        let row = rfen_row(black, white, n - 1);
        lemma_rows_scan(black, white, (n - 1) as nat);
        lemma_scan_concat(scan_start(), prev + seq!['/'], row);
        lemma_scan_concat(scan_start(), prev, seq!['/']);
        let st1 = scan_from(scan_start(), prev);
        assert(seq!['/'].drop_last() == Seq::<char>::empty());
        assert(scan_from(st1, Seq::<char>::empty()) == st1);
        let st2 = scan_from(st1, seq!['/']);
        assert(st2 == rfen_step(st1, '/'));
        let b = st1->black;
        let w = st1->white;
        assert(st2 == RfenScan::Go { black: b, white: w, x: 0, y: n - 1 });
        assert forall|i: int| 0 <= i < 64 implies #[trigger] bit(b, i) == (bit(black, i) && (i % 8 < n - 1 || (i % 8
            == n - 1 && i / 8 < 0))) by {
            assert(i / 8 < 8);
        }
        assert forall|i: int| 0 <= i < 64 implies #[trigger] bit(w, i) == (bit(white, i) && (i % 8 < n - 1 || (i % 8
            == n - 1 && i / 8 < 0))) by {
            assert(i / 8 < 8);
        }
        lemma_rle_scan(black, white, n - 1, 0, NONE, 0, st2);
    }
}

/// No character of `s` is whitespace.
pub open spec fn no_ws(s: Seq<char>) -> bool {
    forall|i: int| 0 <= i < s.len() ==> !is_ws(#[trigger] s[i])
}

/// A run letter is not whitespace.
proof fn lemma_emit_run_chars(c: i8, n: int)
    requires
        1 <= n <= 8,
    ensures
        no_ws(emit_run(c, n)),
        (c == SENTE || c == GOTE || c == BLANK) ==> emit_run(c, n).len() == 1,
{
    if c == SENTE || c == GOTE || c == BLANK {
        let ch = run_letter(c, n);
        assert(emit_run(c, n)[0] == ch);
        if c == SENTE {
            assert(ch as u32 == 64 + n);
        } else if c == GOTE {
            assert(ch as u32 == 96 + n);
        } else {
            assert(ch as u32 == 48 + n);
        }
    }
}

/// The run-length text of a row is made of run letters, at least one.
proof fn lemma_rle_chars(s: Seq<i8>, i: int, old: i8, count: int)
    requires
        s.len() == 8,
        forall|k: int| 0 <= k < 8 ==> (#[trigger] s[k] == SENTE || s[k] == GOTE || s[k] == BLANK),
        0 <= count <= i <= 8,
        count == 0 ==> (i == 0 && old == NONE),
        count > 0 ==> (old == SENTE || old == GOTE || old == BLANK),
    ensures
        no_ws(rle_from(s, i, old, count)),
        rle_from(s, i, old, count).len() >= 1,
    decreases 8 - i,
{
    if i >= 8 {
        lemma_emit_run_chars(old, count);
    } else if s[i] == old {
        lemma_rle_chars(s, i + 1, old, count + 1);
    } else {
        lemma_rle_chars(s, i + 1, s[i], 1);
        let a = emit_run(old, count);
        let b = rle_from(s, i + 1, s[i], 1);
        if count > 0 {
            lemma_emit_run_chars(old, count);
        } else {
            assert(a == Seq::<char>::empty());
        }
        assert forall|k: int| 0 <= k < (a + b).len() implies !is_ws(#[trigger] (a + b)[k]) by {
            if k < a.len() {
                assert((a + b)[k] == a[k]);
            } else {
                assert((a + b)[k] == b[k - a.len()]);
            }
        }
    }
}

/// The RFEN rows are made of run letters and `/`, at least one character.
proof fn lemma_rows_chars(black: u64, white: u64, n: nat)
    requires
        1 <= n <= 8,
    ensures
        no_ws(rfen_rows(black, white, n)),
        rfen_rows(black, white, n).len() >= 1,
    decreases n,
{
    let s = row_colors(black, white, n - 1);
    assert forall|k: int| 0 <= k < 8 implies (#[trigger] s[k] == SENTE || s[k] == GOTE || s[k] == BLANK) by {
        lemma_stone_colour(black, white, k * 8 + n - 1);
    }
    lemma_rle_chars(s, 0, NONE, 0);
    if n > 1 {
        lemma_rows_chars(black, white, (n - 1) as nat);
        let a = rfen_rows(black, white, (n - 1) as nat) + seq!['/'];
        let b = rfen_row(black, white, n - 1);
        assert forall|k: int| 0 <= k < a.len() implies !is_ws(#[trigger] a[k]) by {
            if k < a.len() - 1 {
                assert(a[k] == rfen_rows(black, white, (n - 1) as nat)[k]);
            }
        }
        assert forall|k: int| 0 <= k < (a + b).len() implies !is_ws(#[trigger] (a + b)[k]) by {
            if k < a.len() {
                assert((a + b)[k] == a[k]);
            } else {
                assert((a + b)[k] == b[k - a.len()]);
            }
        }
    }
}

/// A text without whitespace is a single word.
pub proof fn lemma_words_single(s: Seq<char>)
    requires
        s.len() >= 1,
        no_ws(s),
    ensures
        words(s) == seq![s],
    decreases s.len(),
{
    if s.len() == 1 {
        assert(s.drop_last() == Seq::<char>::empty());
        assert(words(Seq::<char>::empty()) == Seq::<Seq<char>>::empty());
        assert(seq![s.last()] == s);
    } else {
        let p = s.drop_last();
        assert forall|i: int| 0 <= i < p.len() implies !is_ws(#[trigger] p[i]) by {
            assert(p[i] == s[i]);
        }
        lemma_words_single(p);
        assert(!is_ws(s[s.len() - 2]));
        assert(p.push(s.last()) == s);
    }
}

/// The words of the rows, a space and the side letter.
proof fn lemma_words_text(a: Seq<char>, t: char)
    requires
        a.len() >= 1,
        no_ws(a),
        !is_ws(t),
    ensures
        words(a + seq![' ', t]) == seq![a, seq![t]],
{
    lemma_words_single(a);
    let u = a + seq![' ', t];
    let v = a + seq![' '];
    assert(u.drop_last() == v);
    assert(u.last() == t);
    assert(v.drop_last() == a);
    assert(v.last() == ' ');
    assert(is_ws(' '));
    assert(words(v) == words(a));
    assert(u[u.len() - 2] == ' ');
}

/// Reading back the RFEN text of a position gives the position again, with
/// the pass count started afresh, when no cell holds both colours and the
/// side to move is black, white or neither; such a text never runs a stone
/// off the board.
pub proof fn lemma_rfen_roundtrip(b: BitBoard)
    requires
        b.well_formed(),
        b.teban == SENTE || b.teban == GOTE || b.teban == BLANK,
    ensures
        !rfen_off_board(rfen_text(b)),
        rfen_parse(rfen_text(b)) == Ok::<BitBoard, Seq<char>>(
            BitBoard { black: b.black, white: b.white, teban: b.teban, pass: 0 },
        ),
{
    let rows = rfen_rows(b.black, b.white, 8);
    let t = rfen_turn(b.teban);
    lemma_rows_chars(b.black, b.white, 8);
    lemma_words_text(rows, t);
    let w = words(rfen_text(b));
    assert(rfen_text(b) == rows + seq![' ', t]);
    assert(w == seq![rows, seq![t]]);
    assert(w[1][0] == t);
    lemma_rows_scan(b.black, b.white, 8);
    lemma_scan_prefix(rows, rows.len());
    assert(rows.subrange(0, rows.len() as int) == rows);
    let st = rfen_scan(rows, rows.len());
    let bb = st->black;
    let ww = st->white;
    assert forall|i: int| 0 <= i < 64 implies #[trigger] bit(bb, i) == bit(b.black, i) by {
        assert(i % 8 < 8 && i / 8 < 8);
    }
    assert forall|i: int| 0 <= i < 64 implies #[trigger] bit(ww, i) == bit(b.white, i) by {
        assert(i % 8 < 8 && i / 8 < 8);
    }
    lemma_bits_ext(bb, b.black);
    lemma_bits_ext(ww, b.white);
    assert(rfen_teban(w[1]) == Some(b.teban));
}

} // verus!
