use vstd::prelude::*;
use crate::bits::{bit, cell, lemma_bit_cell, lemma_bit_ops, lemma_shift_cell, lemma_test_cell};

verus! {

/// `w` moved by `step` cells along the bit index.
pub open spec fn shift_by(w: u64, step: int) -> u64 {
    if step >= 0 {
        w << (step as u64)
    } else {
        w >> ((-step) as u64)
    }
}

/// Marks the run of `color` stones that starts at cell `c` and goes on by
/// `step`, at most `n` cells long, into `acc`; also gives the run's length.
pub open spec fn edge_run(color: u64, acc: u64, c: int, step: int, n: nat) -> (u64, nat)
    decreases n,
{
    if n == 0 || !bit(color, c) {
        (acc, 0)
    } else {
        let r = edge_run(color, acc | cell(c), c + step, step, (n - 1) as nat);
        (r.0, r.1 + 1)
    }
}

/// The stones held from the corner `corner`: when the corner holds a stone,
/// the run of that colour along the row (`hstep`, up to seven cells from the
/// corner) and along the column (`vstep`, up to six cells from `vstart`).
/// Gives the marks of both colours and how many cells were marked.
pub open spec fn corner_run(
    black: u64,
    white: u64,
    fb: u64,
    fw: u64,
    corner: int,
    hstep: int,
    vstart: int,
    vstep: int,
) -> (u64, u64, nat) {
    if bit(black, corner) {
        let h = edge_run(black, fb, corner, hstep, 7);
        let v = edge_run(black, h.0, vstart, vstep, 6);
        (v.0, fw, h.1 + v.1)
    } else if bit(white, corner) {
        let h = edge_run(white, fw, corner, hstep, 7);
        let v = edge_run(white, h.0, vstart, vstep, 6);
        (fb, v.0, h.1 + v.1)
    } else {
        (fb, fw, 0)
    }
}

/// One inner line of the sweep: from cell `c` on by `step`, for at most `n`
/// cells, while the cells hold stones. A cell already marked is skipped.
/// An unmarked stone is marked when the cells of the window `w` (moved along
/// with the cell) are all marked for its colour; otherwise the line stops.
/// Gives the marks and how many cells were newly marked.
pub open spec fn line_scan(
    black: u64,
    white: u64,
    fb: u64,
    fw: u64,
    c: int,
    step: int,
    w: u64,
    n: nat,
) -> (u64, u64, nat)
    decreases n,
{
    if n == 0 {
        (fb, fw, 0)
    } else if !(bit(black, c) || bit(white, c)) {
        (fb, fw, 0)
    } else if bit(fb, c) || bit(fw, c) {
        line_scan(black, white, fb, fw, c + step, step, shift_by(w, step), (n - 1) as nat)
    } else if bit(black, c) {
        if fb & w != w {
            (fb, fw, 0)
        } else {
            let r = line_scan(
                black,
                white,
                fb | cell(c),
                fw,
                c + step,
                step,
                shift_by(w, step),
                (n - 1) as nat,
            );
            (r.0, r.1, r.2 + 1)
        }
    } else {
        if fw & w != w {
            (fb, fw, 0)
        } else {
            let r = line_scan(
                black,
                white,
                fb,
                fw | cell(c),
                c + step,
                step,
                shift_by(w, step),
                (n - 1) as nat,
            );
            (r.0, r.1, r.2 + 1)
        }
    }
}

/// Start cell, step and window of the first (`second == false`) or second
/// inner line of sweep `kind` at line `t`.
/// Kind 0 walks the columns `x = 1..=6` (windows: the three cells on the left
/// and the one above, then the three on the left and the one below);
/// kind 1 the rows `y = 1..=6` (three above and the left one, then three above
/// and the right one); kind 2 the columns from `x = 6` down (three on the
/// right and above, then three on the right and below); kind 3 the rows from
/// `y = 6` down (three below and the left one, then three below and the right one).
pub open spec fn line_params(kind: int, t: int, second: bool) -> (int, int, u64) {
    if kind == 0 || kind == 2 {
        let pat: u64 = if kind == 0 {
            if second { 0x407u64 } else { 0x107u64 }
        } else {
            if second { 0x70400u64 } else { 0x70100u64 }
        };
        if second {
            (t * 8 + 6, -1, pat << ((8 * (t - 1) + 5) as u64))
        } else {
            (t * 8 + 1, 1, pat << ((8 * (t - 1)) as u64))
        }
    } else {
        let pat: u64 = if kind == 1 {
            if second { 0x30101u64 } else { 0x10103u64 }
        } else {
            if second { 0x60404u64 } else { 0x40406u64 }
        };
        if second {
            (48 + t, -8, pat << ((40 + t - 1) as u64))
        } else {
            (8 + t, 8, pat << ((t - 1) as u64))
        }
    }
}

/// Sweep `kind` from line `t` on, for at most `rem` lines; it stops after a
/// line that marks nothing new.
pub open spec fn sweep(black: u64, white: u64, fb: u64, fw: u64, kind: int, t: int, rem: nat) -> (
    u64,
    u64,
)
    decreases rem,
{
    if rem == 0 {
        (fb, fw)
    } else {
        let p1 = line_params(kind, t, false);
        let p2 = line_params(kind, t, true);
        let r1 = line_scan(black, white, fb, fw, p1.0, p1.1, p1.2, 6);
        let r2 = line_scan(black, white, r1.0, r1.1, p2.0, p2.1, p2.2, 6);
        if r1.2 + r2.2 == 0 {
            (r2.0, r2.1)
        } else {
            sweep(
                black,
                white,
                r2.0,
                r2.1,
                kind,
                if kind < 2 { t + 1 } else { t - 1 },
                (rem - 1) as nat,
            )
        }
    }
}

/// The stones counted as fixed, as a mark set for each colour: the runs
/// along the edges from the four corners and, when at least four cells were
/// marked that way, the stones reached by the four sweeps over the inner cells.
pub open spec fn fixed_marks(black: u64, white: u64) -> (u64, u64) {
    let a = corner_run(black, white, 0, 0, 0, 8, 1, 1);
    let b = corner_run(black, white, a.0, a.1, 56, -8, 57, 1);
    let c = corner_run(black, white, b.0, b.1, 7, 8, 6, -1);
    let d = corner_run(black, white, c.0, c.1, 63, -8, 62, -1);
    if a.2 + b.2 + c.2 + d.2 < 4 {
        (d.0, d.1)
    } else {
        let s0 = sweep(black, white, d.0, d.1, 0, 1, 6);
        let s1 = sweep(black, white, s0.0, s0.1, 1, 1, 6);
        let s2 = sweep(black, white, s1.0, s1.1, 2, 6, 6);
        sweep(black, white, s2.0, s2.1, 3, 6, 6)
    }
}

fn edge_run_exec(color: u64, acc0: u64, c: u64, s: u64, fwd: bool, n: u64) -> (r: (u64, u64))
    requires
        c < 64,
        1 <= s <= 9,
        n <= 8,
    ensures
        r.0 == edge_run(color, acc0, c as int, if fwd { s as int } else { -(s as int) }, n as nat).0,
        r.1 == edge_run(color, acc0, c as int, if fwd { s as int } else { -(s as int) }, n as nat).1,
        r.1 <= n,
{
    let ghost step: int = if fwd { s as int } else { -(s as int) };
    let ghost mut cc: int = c as int;
    let mut bit: u64 = 1u64 << c;
    let mut acc = acc0;
    let mut i: u64 = 0;
    while i < n
        invariant
            i <= n,
            n <= 8,
            1 <= s <= 9,
            step == if fwd { s as int } else { -(s as int) },
            bit == cell(cc),
            fwd ==> cc >= 0,
            !fwd ==> cc < 64,
            edge_run(color, acc0, c as int, step, n as nat).0 == edge_run(
                color,
                acc,
                cc,
                step,
                (n - i) as nat,
            ).0,
            edge_run(color, acc0, c as int, step, n as nat).1 == edge_run(
                color,
                acc,
                cc,
                step,
                (n - i) as nat,
            ).1 + i,
        decreases n - i,
    {
        proof {
            lemma_test_cell(color, cc);
            lemma_shift_cell(cc, s);
        }
        if (color & bit) == 0 {
            return (acc, i);
        }
        acc = acc | bit;
        if fwd {
            bit = bit << s;
        } else {
            bit = bit >> s;
        }
        proof {
            cc = cc + step;
        }
        i = i + 1;
    }
    (acc, i)
}

fn line_scan_exec(
    black: u64,
    white: u64,
    fb0: u64,
    fw0: u64,
    c: u64,
    s: u64,
    fwd: bool,
    w0: u64,
    n: u64,
) -> (r: (u64, u64, u64))
    requires
        c < 64,
        1 <= s <= 9,
        n <= 8,
    ensures
        ({
            let sp = line_scan(
                black,
                white,
                fb0,
                fw0,
                c as int,
                if fwd { s as int } else { -(s as int) },
                w0,
                n as nat,
            );
            r.0 == sp.0 && r.1 == sp.1 && r.2 == sp.2
        }),
        r.2 <= n,
{
    let ghost step: int = if fwd { s as int } else { -(s as int) };
    let ghost mut cc: int = c as int;
    let ghost sp = line_scan(black, white, fb0, fw0, c as int, step, w0, n as nat);
    let mut bit: u64 = 1u64 << c;
    let mut wbit: u64 = w0;
    let mut fb = fb0;
    let mut fw = fw0;
    let mut cnt: u64 = 0;
    let mut i: u64 = 0;
    while i < n
        invariant
            i <= n,
            n <= 8,
            cnt <= i,
            1 <= s <= 9,
            step == if fwd { s as int } else { -(s as int) },
            bit == cell(cc),
            fwd ==> cc >= 0,
            !fwd ==> cc < 64,
            sp == line_scan(black, white, fb0, fw0, c as int, step, w0, n as nat),
            ({
                let rest = line_scan(black, white, fb, fw, cc, step, wbit, (n - i) as nat);
                sp.0 == rest.0 && sp.1 == rest.1 && sp.2 == rest.2 + cnt
            }),
        decreases n - i,
    {
        proof {
            lemma_test_cell(black, cc);
            lemma_test_cell(white, cc);
            lemma_test_cell(fb, cc);
            lemma_test_cell(fw, cc);
            lemma_shift_cell(cc, s);
        }
        let cb = (black & bit) != 0;
        let cw = (white & bit) != 0;
        if !(cb || cw) {
            return (fb, fw, cnt);
        }
        let fcb = (fb & bit) != 0;
        let fcw = (fw & bit) != 0;
        if !(fcb || fcw) {
            if cb {
                if fb & wbit != wbit {
                    return (fb, fw, cnt);
                }
                fb = fb | bit;
            } else {
                if fw & wbit != wbit {
                    return (fb, fw, cnt);
                }
                fw = fw | bit;
            }
            cnt = cnt + 1;
        }
        if fwd {
            bit = bit << s;
            wbit = wbit << s;
        } else {
            bit = bit >> s;
            wbit = wbit >> s;
        }
        proof {
            cc = cc + step;
        }
        i = i + 1;
    }
    (fb, fw, cnt)
}

fn line_params_exec(kind: u64, t: u64, second: bool) -> (r: (u64, u64, bool, u64))
    requires
        kind < 4,
        1 <= t <= 6,
    ensures
        ({
            let p = line_params(kind as int, t as int, second);
            r.0 == p.0 && (if r.2 { r.1 as int } else { -(r.1 as int) }) == p.1 && r.3 == p.2
        }),
        r.0 < 64,
        1 <= r.1 <= 9,
{
    if kind == 0 || kind == 2 {
        let pat: u64 = if kind == 0 {
            if second { 0x407u64 } else { 0x107u64 }
        } else {
            if second { 0x70400u64 } else { 0x70100u64 }
        };
        if second {
            (t * 8 + 6, 1, false, pat << (8 * (t - 1) + 5))
        } else {
            (t * 8 + 1, 1, true, pat << (8 * (t - 1)))
        }
    } else {
        let pat: u64 = if kind == 1 {
            if second { 0x30101u64 } else { 0x10103u64 }
        } else {
            if second { 0x60404u64 } else { 0x40406u64 }
        };
        if second {
            (48 + t, 8, false, pat << (40 + t - 1))
        } else {
            (8 + t, 8, true, pat << (t - 1))
        }
    }
}

fn sweep_exec(black: u64, white: u64, fb0: u64, fw0: u64, kind: u64) -> (r: (u64, u64))
    requires
        kind < 4,
    ensures
        ({
            let sp = sweep(black, white, fb0, fw0, kind as int, if kind < 2 { 1 } else { 6 }, 6);
            r.0 == sp.0 && r.1 == sp.1
        }),
{
    let ghost sp = sweep(black, white, fb0, fw0, kind as int, if kind < 2 { 1 } else { 6 }, 6);
    let mut t: u64 = if kind < 2 { 1 } else { 6 };
    let mut fb = fb0;
    let mut fw = fw0;
    let mut k: u64 = 0;
    while k < 6
        invariant
            k <= 6,
            kind < 4,
            kind < 2 ==> t == k + 1,
            kind >= 2 ==> t == 6 - k,
            sp == sweep(black, white, fb0, fw0, kind as int, if kind < 2 { 1 } else { 6 }, 6),
            ({
                let rest = sweep(black, white, fb, fw, kind as int, t as int, (6 - k) as nat);
                sp.0 == rest.0 && sp.1 == rest.1
            }),
        decreases 6 - k,
    {
        let p1 = line_params_exec(kind, t, false);
        let p2 = line_params_exec(kind, t, true);
        let r1 = line_scan_exec(black, white, fb, fw, p1.0, p1.1, p1.2, p1.3, 6);
        let r2 = line_scan_exec(black, white, r1.0, r1.1, p2.0, p2.1, p2.2, p2.3, 6);
        fb = r2.0;
        fw = r2.1;
        if r1.2 + r2.2 == 0 {
            return (fb, fw);
        }
        if kind < 2 {
            t = t + 1;
        } else {
            t = t - 1;
        }
        k = k + 1;
    }
    (fb, fw)
}

fn corner_exec(
    black: u64,
    white: u64,
    fb: u64,
    fw: u64,
    corner: u64,
    hs: u64,
    hfwd: bool,
    vstart: u64,
    vfwd: bool,
) -> (r: (u64, u64, u64))
    requires
        corner < 64,
        vstart < 64,
        1 <= hs <= 9,
    ensures
        ({
            let sp = corner_run(
                black,
                white,
                fb,
                fw,
                corner as int,
                if hfwd { hs as int } else { -(hs as int) },
                vstart as int,
                if vfwd { 1 } else { -1 },
            );
            r.0 == sp.0 && r.1 == sp.1 && r.2 == sp.2
        }),
        r.2 <= 13,
{
    proof {
        lemma_test_cell(black, corner as int);
        lemma_test_cell(white, corner as int);
    }
    let bit: u64 = 1u64 << corner;
    if (black & bit) != 0 {
        let h = edge_run_exec(black, fb, corner, hs, hfwd, 7);
        let v = edge_run_exec(black, h.0, vstart, 1, vfwd, 6);
        (v.0, fw, h.1 + v.1)
    } else if (white & bit) != 0 {
        let h = edge_run_exec(white, fw, corner, hs, hfwd, 7);
        let v = edge_run_exec(white, h.0, vstart, 1, vfwd, 6);
        (fb, v.0, h.1 + v.1)
    } else {
        (fb, fw, 0)
    }
}

/// The marks of the stones counted as fixed, as computed by `fixed_marks`.
pub fn fixed_marks_exec(black: u64, white: u64) -> (r: (u64, u64))
    ensures
        r.0 == fixed_marks(black, white).0,
        r.1 == fixed_marks(black, white).1,
{
    let a = corner_exec(black, white, 0, 0, 0, 8, true, 1, true);
    let b = corner_exec(black, white, a.0, a.1, 56, 8, false, 57, true);
    let c = corner_exec(black, white, b.0, b.1, 7, 8, true, 6, false);
    let d = corner_exec(black, white, c.0, c.1, 63, 8, false, 62, false);
    if a.2 + b.2 + c.2 + d.2 < 4 {
        return (d.0, d.1);
    }
    let s0 = sweep_exec(black, white, d.0, d.1, 0);
    let s1 = sweep_exec(black, white, s0.0, s0.1, 1);
    let s2 = sweep_exec(black, white, s1.0, s1.1, 2);
    sweep_exec(black, white, s2.0, s2.1, 3)
}

/// Every cell of `a` is a cell of `b` or of `c`.
pub open spec fn within(a: u64, b: u64, c: u64) -> bool {
    forall|i: int| 0 <= i < 64 ==> #[trigger] bit(a, i) ==> bit(b, i) || bit(c, i)
}

proof fn lemma_within_add(acc: u64, color: u64, c: int)
    requires
        bit(color, c),
    ensures
        forall|b: u64| within(acc, b, color) ==> within(acc | cell(c), b, color),
{
    assert forall|b: u64| within(acc, b, color) implies within(acc | cell(c), b, color) by {
        assert forall|i: int| 0 <= i < 64 && #[trigger] bit(acc | cell(c), i) implies bit(b, i)
            || bit(color, i) by {
            lemma_bit_ops(acc, cell(c), i);
            lemma_bit_cell(c, i);
        }
    }
}

proof fn lemma_edge_run_within(color: u64, acc: u64, c: int, step: int, n: nat, base: u64)
    requires
        within(acc, base, color),
    ensures
        within(edge_run(color, acc, c, step, n).0, base, color),
    decreases n,
{
    if n > 0 && bit(color, c) {
        lemma_within_add(acc, color, c);
        lemma_edge_run_within(color, acc | cell(c), c + step, step, (n - 1) as nat, base);
    }
}

proof fn lemma_line_scan_within(
    black: u64,
    white: u64,
    fb: u64,
    fw: u64,
    c: int,
    step: int,
    w: u64,
    n: nat,
)
    requires
        within(fb, 0, black),
        within(fw, 0, white),
    ensures
        within(line_scan(black, white, fb, fw, c, step, w, n).0, 0, black),
        within(line_scan(black, white, fb, fw, c, step, w, n).1, 0, white),
    decreases n,
{
    if n == 0 || !(bit(black, c) || bit(white, c)) {
    } else if bit(fb, c) || bit(fw, c) {
        lemma_line_scan_within(black, white, fb, fw, c + step, step, shift_by(w, step), (n - 1) as nat);
    } else if bit(black, c) {
        if fb & w == w {
            lemma_within_add(fb, black, c);
            lemma_line_scan_within(
                black,
                white,
                fb | cell(c),
                fw,
                c + step,
                step,
                shift_by(w, step),
                (n - 1) as nat,
            );
        }
    } else {
        if fw & w == w {
            lemma_within_add(fw, white, c);
            lemma_line_scan_within(
                black,
                white,
                fb,
                fw | cell(c),
                c + step,
                step,
                shift_by(w, step),
                (n - 1) as nat,
            );
        }
    }
}

proof fn lemma_sweep_within(black: u64, white: u64, fb: u64, fw: u64, kind: int, t: int, rem: nat)
    requires
        within(fb, 0, black),
        within(fw, 0, white),
    ensures
        within(sweep(black, white, fb, fw, kind, t, rem).0, 0, black),
        within(sweep(black, white, fb, fw, kind, t, rem).1, 0, white),
    decreases rem,
{
    if rem > 0 {
        let p1 = line_params(kind, t, false);
        let p2 = line_params(kind, t, true);
        let r1 = line_scan(black, white, fb, fw, p1.0, p1.1, p1.2, 6);
        lemma_line_scan_within(black, white, fb, fw, p1.0, p1.1, p1.2, 6);
        let r2 = line_scan(black, white, r1.0, r1.1, p2.0, p2.1, p2.2, 6);
        lemma_line_scan_within(black, white, r1.0, r1.1, p2.0, p2.1, p2.2, 6);
        if r1.2 + r2.2 != 0 {
            lemma_sweep_within(
                black,
                white,
                r2.0,
                r2.1,
                kind,
                if kind < 2 { t + 1 } else { t - 1 },
                (rem - 1) as nat,
            );
        }
    }
}

proof fn lemma_corner_within(
    black: u64,
    white: u64,
    fb: u64,
    fw: u64,
    corner: int,
    hstep: int,
    vstart: int,
    vstep: int,
)
    requires
        within(fb, 0, black),
        within(fw, 0, white),
    ensures
        within(corner_run(black, white, fb, fw, corner, hstep, vstart, vstep).0, 0, black),
        within(corner_run(black, white, fb, fw, corner, hstep, vstart, vstep).1, 0, white),
{
    if bit(black, corner) {
        let h = edge_run(black, fb, corner, hstep, 7);
        lemma_edge_run_within(black, fb, corner, hstep, 7, 0);
        lemma_edge_run_within(black, h.0, vstart, vstep, 6, 0);
    } else if bit(white, corner) {
        let h = edge_run(white, fw, corner, hstep, 7);
        lemma_edge_run_within(white, fw, corner, hstep, 7, 0);
        lemma_edge_run_within(white, h.0, vstart, vstep, 6, 0);
    }
}

/// Only stones are counted as fixed, each for its own colour: the black marks
/// are black stones and the white marks are white stones.
pub proof fn lemma_fixed_marks_own_colour(black: u64, white: u64)
    ensures
        forall|i: int| 0 <= i < 64 ==> #[trigger] bit(fixed_marks(black, white).0, i) ==> bit(black, i),
        forall|i: int| 0 <= i < 64 ==> #[trigger] bit(fixed_marks(black, white).1, i) ==> bit(white, i),
{
    assert forall|i: int| 0 <= i < 64 implies !#[trigger] bit(0u64, i) by {
        lemma_bit_ops(0, 0, i);
    }
    let a = corner_run(black, white, 0, 0, 0, 8, 1, 1);
    lemma_corner_within(black, white, 0, 0, 0, 8, 1, 1);
    let b = corner_run(black, white, a.0, a.1, 56, -8, 57, 1);
    lemma_corner_within(black, white, a.0, a.1, 56, -8, 57, 1);
    let c = corner_run(black, white, b.0, b.1, 7, 8, 6, -1);
    lemma_corner_within(black, white, b.0, b.1, 7, 8, 6, -1);
    let d = corner_run(black, white, c.0, c.1, 63, -8, 62, -1);
    lemma_corner_within(black, white, c.0, c.1, 63, -8, 62, -1);
    if a.2 + b.2 + c.2 + d.2 >= 4 {
        let s0 = sweep(black, white, d.0, d.1, 0, 1, 6);
        lemma_sweep_within(black, white, d.0, d.1, 0, 1, 6);
        let s1 = sweep(black, white, s0.0, s0.1, 1, 1, 6);
        lemma_sweep_within(black, white, s0.0, s0.1, 1, 1, 6);
        let s2 = sweep(black, white, s1.0, s1.1, 2, 6, 6);
        lemma_sweep_within(black, white, s1.0, s1.1, 2, 6, 6);
        lemma_sweep_within(black, white, s2.0, s2.1, 3, 6, 6);
    }
    assert forall|i: int| 0 <= i < 64 implies !#[trigger] bit(0u64, i) by {
        lemma_bit_ops(0, 0, i);
    }
}

/// Marking a run keeps every mark already made.
proof fn lemma_edge_run_grows(color: u64, acc: u64, c: int, step: int, n: nat, i: int)
    requires
        bit(acc, i),
    ensures
        bit(edge_run(color, acc, c, step, n).0, i),
    decreases n,
{
    if n > 0 && bit(color, c) {
        lemma_bit_ops(acc, cell(c), i);
        lemma_edge_run_grows(color, acc | cell(c), c + step, step, (n - 1) as nat, i);
    }
}

/// A run of `m` stones of `color` from `c` by `step` is marked by a walk of
/// at least `m` cells.
proof fn lemma_edge_run_marks(color: u64, acc: u64, c: int, step: int, n: nat, m: nat, j: int)
    requires
        m <= n,
        0 <= j < m,
        forall|t: int| 0 <= t < m ==> #[trigger] bit(color, c + t * step),
    ensures
        bit(edge_run(color, acc, c, step, n).0, c + j * step),
    decreases n,
{
    assert(bit(color, c + 0 * step));
    assert(c + 0 * step == c);
    lemma_bit_cell(c, c);
    lemma_bit_ops(acc, cell(c), c);
    if j == 0 {
        lemma_edge_run_grows(color, acc | cell(c), c + step, step, (n - 1) as nat, c);
    } else {
        assert forall|t: int| 0 <= t < m - 1 implies #[trigger] bit(color, (c + step) + t * step) by {
            assert((t + 1) * step == t * step + step) by (nonlinear_arith);
            assert(bit(color, c + (t + 1) * step));
        }
        lemma_edge_run_marks(color, acc | cell(c), c + step, step, (n - 1) as nat, (m - 1) as nat, j - 1);
        assert(j * step == (j - 1) * step + step) by (nonlinear_arith);
    }
}

/// An inner line keeps every mark already made, of either colour.
proof fn lemma_line_scan_grows(
    black: u64,
    white: u64,
    fb: u64,
    fw: u64,
    c: int,
    step: int,
    w: u64,
    n: nat,
    i: int,
)
    requires
        0 <= i < 64,
    ensures
        bit(fb, i) ==> bit(line_scan(black, white, fb, fw, c, step, w, n).0, i),
        bit(fw, i) ==> bit(line_scan(black, white, fb, fw, c, step, w, n).1, i),
    decreases n,
{
    lemma_bit_ops(fb, cell(c), i);
    lemma_bit_ops(fw, cell(c), i);
    if n == 0 || !(bit(black, c) || bit(white, c)) {
    } else if bit(fb, c) || bit(fw, c) {
        lemma_line_scan_grows(black, white, fb, fw, c + step, step, shift_by(w, step), (n - 1) as nat, i);
    } else if bit(black, c) {
        if fb & w == w {
            lemma_line_scan_grows(
                black,
                white,
                fb | cell(c),
                fw,
                c + step,
                step,
                shift_by(w, step),
                (n - 1) as nat,
                i,
            );
        }
    } else {
        if fw & w == w {
            lemma_line_scan_grows(
                black,
                white,
                fb,
                fw | cell(c),
                c + step,
                step,
                shift_by(w, step),
                (n - 1) as nat,
                i,
            );
        }
    }
}

/// A sweep keeps every mark already made, of either colour.
proof fn lemma_sweep_grows(black: u64, white: u64, fb: u64, fw: u64, kind: int, t: int, rem: nat, i: int)
    requires
        0 <= i < 64,
    ensures
        bit(fb, i) ==> bit(sweep(black, white, fb, fw, kind, t, rem).0, i),
        bit(fw, i) ==> bit(sweep(black, white, fb, fw, kind, t, rem).1, i),
    decreases rem,
{
    if rem > 0 {
        let p1 = line_params(kind, t, false);
        let p2 = line_params(kind, t, true);
        let r1 = line_scan(black, white, fb, fw, p1.0, p1.1, p1.2, 6);
        lemma_line_scan_grows(black, white, fb, fw, p1.0, p1.1, p1.2, 6, i);
        let r2 = line_scan(black, white, r1.0, r1.1, p2.0, p2.1, p2.2, 6);
        lemma_line_scan_grows(black, white, r1.0, r1.1, p2.0, p2.1, p2.2, 6, i);
        if r1.2 + r2.2 != 0 {
            lemma_sweep_grows(
                black,
                white,
                r2.0,
                r2.1,
                kind,
                if kind < 2 { t + 1 } else { t - 1 },
                (rem - 1) as nat,
                i,
            );
        }
    }
}

/// The runs from a corner keep every mark already made, of either colour.
proof fn lemma_corner_run_grows(
    black: u64,
    white: u64,
    fb: u64,
    fw: u64,
    corner: int,
    hstep: int,
    vstart: int,
    vstep: int,
    i: int,
)
    requires
        0 <= i < 64,
    ensures
        bit(fb, i) ==> bit(corner_run(black, white, fb, fw, corner, hstep, vstart, vstep).0, i),
        bit(fw, i) ==> bit(corner_run(black, white, fb, fw, corner, hstep, vstart, vstep).1, i),
{
    if bit(black, corner) {
        let h = edge_run(black, fb, corner, hstep, 7);
        if bit(fb, i) {
            lemma_edge_run_grows(black, fb, corner, hstep, 7, i);
            lemma_edge_run_grows(black, h.0, vstart, vstep, 6, i);
        }
    } else if bit(white, corner) {
        let h = edge_run(white, fw, corner, hstep, 7);
        if bit(fw, i) {
            lemma_edge_run_grows(white, fw, corner, hstep, 7, i);
            lemma_edge_run_grows(white, h.0, vstart, vstep, 6, i);
        }
    }
}

/// The runs from a corner mark, for the corner's colour, every cell of
/// either edge joined to the corner by stones of that colour, up to six
/// cells away.
proof fn lemma_corner_run_marks(
    black: u64,
    white: u64,
    fb: u64,
    fw: u64,
    corner: int,
    hstep: int,
    vstep: int,
    step: int,
    k: int,
)
    requires
        black & white == 0,
        0 <= corner < 64,
        step == hstep || step == vstep,
        0 <= k <= 6,
    ensures
        (forall|j: int| 0 <= j <= k ==> #[trigger] bit(black, corner + j * step)) ==> bit(
            corner_run(black, white, fb, fw, corner, hstep, corner + vstep, vstep).0,
            corner + k * step,
        ),
        (forall|j: int| 0 <= j <= k ==> #[trigger] bit(white, corner + j * step)) ==> bit(
            corner_run(black, white, fb, fw, corner, hstep, corner + vstep, vstep).1,
            corner + k * step,
        ),
{
    let vstart = corner + vstep;
    lemma_bit_ops(black, white, corner);
    assert(corner + 0 * step == corner);
    if forall|j: int| 0 <= j <= k ==> #[trigger] bit(black, corner + j * step) {
        assert(bit(black, corner + 0 * step));
        let h = edge_run(black, fb, corner, hstep, 7);
        let target = corner + k * step;
        assert(bit(black, target));
        if step == hstep {
            lemma_edge_run_marks(black, fb, corner, hstep, 7, (k + 1) as nat, k);
            lemma_edge_run_grows(black, h.0, vstart, vstep, 6, target);
        } else if k == 0 {
            lemma_edge_run_marks(black, fb, corner, hstep, 7, 1, 0);
            lemma_edge_run_grows(black, h.0, vstart, vstep, 6, target);
        } else {
            assert forall|t: int| 0 <= t < k implies #[trigger] bit(black, vstart + t * vstep) by {
                assert((t + 1) * vstep == t * vstep + vstep) by (nonlinear_arith);
                assert(bit(black, corner + (t + 1) * step));
            }
            lemma_edge_run_marks(black, h.0, vstart, vstep, 6, k as nat, k - 1);
            assert(k * vstep == (k - 1) * vstep + vstep) by (nonlinear_arith);
        }
    }
    if forall|j: int| 0 <= j <= k ==> #[trigger] bit(white, corner + j * step) {
        assert(bit(white, corner + 0 * step));
        assert(!bit(black, corner)) by {
            lemma_bit_ops(0, 0, corner);
        }
        let h = edge_run(white, fw, corner, hstep, 7);
        let target = corner + k * step;
        assert(bit(white, target));
        if step == hstep {
            lemma_edge_run_marks(white, fw, corner, hstep, 7, (k + 1) as nat, k);
            lemma_edge_run_grows(white, h.0, vstart, vstep, 6, target);
        } else if k == 0 {
            lemma_edge_run_marks(white, fw, corner, hstep, 7, 1, 0);
            lemma_edge_run_grows(white, h.0, vstart, vstep, 6, target);
        } else {
            assert forall|t: int| 0 <= t < k implies #[trigger] bit(white, vstart + t * vstep) by {
                assert((t + 1) * vstep == t * vstep + vstep) by (nonlinear_arith);
                assert(bit(white, corner + (t + 1) * step));
            }
            lemma_edge_run_marks(white, h.0, vstart, vstep, 6, k as nat, k - 1);
            assert(k * vstep == (k - 1) * vstep + vstep) by (nonlinear_arith);
        }
    }
}

/// The marks made by the runs from the corners stay in the final marks.
proof fn lemma_corner_marks_kept(black: u64, white: u64, i: int)
    requires
        0 <= i < 64,
    ensures
        ({
            let a = corner_run(black, white, 0, 0, 0, 8, 1, 1);
            let b = corner_run(black, white, a.0, a.1, 56, -8, 57, 1);
            let c = corner_run(black, white, b.0, b.1, 7, 8, 6, -1);
            let d = corner_run(black, white, c.0, c.1, 63, -8, 62, -1);
            let f = fixed_marks(black, white);
            &&& (bit(a.0, i) || bit(b.0, i) || bit(c.0, i) || bit(d.0, i)) ==> bit(f.0, i)
            &&& (bit(a.1, i) || bit(b.1, i) || bit(c.1, i) || bit(d.1, i)) ==> bit(f.1, i)
        }),
{
    let a = corner_run(black, white, 0, 0, 0, 8, 1, 1);
    let b = corner_run(black, white, a.0, a.1, 56, -8, 57, 1);
    let c = corner_run(black, white, b.0, b.1, 7, 8, 6, -1);
    let d = corner_run(black, white, c.0, c.1, 63, -8, 62, -1);
    lemma_corner_run_grows(black, white, a.0, a.1, 56, -8, 57, 1, i);
    lemma_corner_run_grows(black, white, b.0, b.1, 7, 8, 6, -1, i);
    lemma_corner_run_grows(black, white, c.0, c.1, 63, -8, 62, -1, i);
    if a.2 + b.2 + c.2 + d.2 >= 4 {
        let s0 = sweep(black, white, d.0, d.1, 0, 1, 6);
        lemma_sweep_grows(black, white, d.0, d.1, 0, 1, 6, i);
        let s1 = sweep(black, white, s0.0, s0.1, 1, 1, 6);
        lemma_sweep_grows(black, white, s0.0, s0.1, 1, 1, 6, i);
        let s2 = sweep(black, white, s1.0, s1.1, 2, 6, 6);
        lemma_sweep_grows(black, white, s1.0, s1.1, 2, 6, 6, i);
        lemma_sweep_grows(black, white, s2.0, s2.1, 3, 6, 6, i);
    }
}

/// The corner cell with its two edges: `step` walks from `corner` along one
/// of the two edges that meet there.
pub open spec fn corner_edge(corner: int, step: int) -> bool {
    ||| corner == 0 && (step == 8 || step == 1)
    ||| corner == 56 && (step == -8 || step == 1)
    ||| corner == 7 && (step == 8 || step == -1)
    ||| corner == 63 && (step == -8 || step == -1)
}

/// On a board where no cell holds both colours, a stone on an edge that is
/// joined to a corner by an unbroken line of stones of its colour along that
/// edge (the corner itself included, up to the opposite corner) is counted as
/// fixed for its colour. So a run of seven edge stones from a corner counts
/// seven.
pub proof fn lemma_corner_edges_fixed(black: u64, white: u64, corner: int, step: int, k: int)
    requires
        black & white == 0,
        corner_edge(corner, step),
        0 <= k <= 7,
    ensures
        (forall|j: int| 0 <= j <= k ==> #[trigger] bit(black, corner + j * step)) ==> bit(
            fixed_marks(black, white).0,
            corner + k * step,
        ),
        (forall|j: int| 0 <= j <= k ==> #[trigger] bit(white, corner + j * step)) ==> bit(
            fixed_marks(black, white).1,
            corner + k * step,
        ),
{
    let a = corner_run(black, white, 0, 0, 0, 8, 1, 1);
    let b = corner_run(black, white, a.0, a.1, 56, -8, 57, 1);
    let c = corner_run(black, white, b.0, b.1, 7, 8, 6, -1);
    let target = corner + k * step;
    if k <= 6 {
        if corner == 0 {
            lemma_corner_run_marks(black, white, 0, 0, 0, 8, 1, step, k);
        } else if corner == 56 {
            lemma_corner_run_marks(black, white, a.0, a.1, 56, -8, 1, step, k);
        } else if corner == 7 {
            lemma_corner_run_marks(black, white, b.0, b.1, 7, 8, -1, step, k);
        } else {
            lemma_corner_run_marks(black, white, c.0, c.1, 63, -8, -1, step, k);
        }
        assert(0 <= target < 64) by {
            assert(0 <= k * step + corner < 64) by (nonlinear_arith)
                requires
                    corner_edge(corner, step),
                    0 <= k <= 6,
            ;
        }
        lemma_corner_marks_kept(black, white, target);
    } else {
        // the run reaches the opposite corner, which is counted from there
        assert(target == corner + 7 * step);
        let other = corner + 7 * step;
        assert(bit(black, corner + 7 * step) || !(forall|j: int|
            0 <= j <= k ==> #[trigger] bit(black, corner + j * step)));
        assert(bit(white, corner + 7 * step) || !(forall|j: int|
            0 <= j <= k ==> #[trigger] bit(white, corner + j * step)));
        if other == 0 {
            assert(bit(black, 0int + 0int * (8int)) == bit(black, other));
            assert(bit(white, 0int + 0int * (8int)) == bit(white, other));
            lemma_corner_run_marks(black, white, 0, 0, 0, 8, 1, 8, 0);
        } else if other == 56 {
            assert(bit(black, 56int + 0int * (-8int)) == bit(black, other));
            assert(bit(white, 56int + 0int * (-8int)) == bit(white, other));
            lemma_corner_run_marks(black, white, a.0, a.1, 56, -8, 1, -8, 0);
        } else if other == 7 {
            assert(bit(black, 7int + 0int * (8int)) == bit(black, other));
            assert(bit(white, 7int + 0int * (8int)) == bit(white, other));
            lemma_corner_run_marks(black, white, b.0, b.1, 7, 8, -1, 8, 0);
        } else {
            assert(other == 63);
            assert(bit(black, 63int + 0int * (-8int)) == bit(black, other));
            assert(bit(white, 63int + 0int * (-8int)) == bit(white, other));
            lemma_corner_run_marks(black, white, c.0, c.1, 63, -8, -1, -8, 0);
        }
        lemma_corner_marks_kept(black, white, target);
    }
}

} // verus!
