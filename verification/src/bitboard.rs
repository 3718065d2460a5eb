use vstd::prelude::*;
use crate::bits::{
    bit, cell, count_ones, is_bit_reversal, lemma_or8_zero, lemma_shift_cell, lemma_test_cell,
    popcount, reverse_bits,
};
use crate::fixed::{fixed_marks, fixed_marks_exec};

verus! {

pub const SENTE: i8 = 1;
pub const BLANK: i8 = 0;
pub const GOTE: i8 = -1;
pub const NONE: i8 = 127;
pub const NUMCELL: usize = 8;
pub const CELL_2D: usize = 64;
pub const STR_SENTE: &'static str = "0ABCDEFGH";
pub const STR_GOTE: &'static str = "0abcdefgh";
pub const STR_NUM: &'static str = "012345678";
pub const STONE_SENTE: &'static str = "@@";
pub const STONE_GOTE: &'static str = "[]";
pub const LSB_CELL: u64 = 1;
/// The position code of a pass.
pub const PASS: u8 = 255;

/// A reversi position: one bit set per colour, the side to move and the
/// number of consecutive passes.
/// Cell `(x, y)` (column `x`, row `y`, both `0..8`) is bit `x * 8 + y`.
pub struct BitBoard {
    pub black: u64,
    pub white: u64,
    pub teban: i8,
    pub pass: i8,
}

/// The colour found at cell `i`.
pub open spec fn stone(black: u64, white: u64, i: int) -> i8 {
    if bit(black, i) {
        SENTE
    } else if bit(white, i) {
        GOTE
    } else {
        BLANK
    }
}

pub open spec fn min(a: int, b: int) -> int {
    if a < b { a } else { b }
}

pub open spec fn max(a: int, b: int) -> int {
    if a < b { b } else { a }
}

/// The stones flipped along one direction when a stone of the `mine` colour
/// lands next to cell `c`: walking from `c` by `step` for at most `n` cells,
/// the run of `oppo` stones is flipped when it ends on a `mine` stone.
/// `rev` holds the run seen so far.
pub open spec fn ray(mine: u64, oppo: u64, c: int, step: int, n: nat, rev: u64) -> u64
    decreases n,
{
    if n == 0 {
        0
    } else if bit(mine, c) {
        rev
    } else if bit(oppo, c) {
        ray(mine, oppo, c + step, step, (n - 1) as nat, rev | cell(c))
    } else {
        0
    }
}

/// Number of cells looked at in each of the eight directions from `(x, y)`,
/// in the order down, up, right, left, down-right, up-right, up-left, down-left
/// (a step of `+1`, `-1`, `+8`, `-8`, `+9`, `+7`, `-9`, `-7` in the bit index):
/// the cells between `(x, y)` and the edge of the board, so that no walk
/// leaves the board or runs on into the next column.
pub open spec fn reach(x: int, y: int, d: int) -> int {
    if d == 0 {
        if y < 8 { 7 - y } else { 0 }
    } else if d == 1 {
        y
    } else if d == 2 {
        if x < 8 { 7 - x } else { 0 }
    } else if d == 3 {
        x
    } else if d == 4 {
        if max(x, y) < 7 { 7 - max(x, y) } else { 0 }
    } else if d == 5 {
        if x < 8 { min(7 - x, min(y, 7)) } else { 0 }
    } else if d == 6 {
        min(x, min(y, 7))
    } else {
        if y < 8 { min(x, 7 - y) } else { 0 }
    }
}

pub open spec fn dir_step(d: int) -> int {
    if d == 0 {
        1
    } else if d == 1 {
        -1
    } else if d == 2 {
        8
    } else if d == 3 {
        -8
    } else if d == 4 {
        9
    } else if d == 5 {
        7
    } else if d == 6 {
        -9
    } else {
        -7
    }
}

/// The stones flipped in direction `d` by a stone put at `(x, y)`.
pub open spec fn dir_flips(mine: u64, oppo: u64, x: int, y: int, d: int) -> u64 {
    ray(mine, oppo, x * 8 + y + dir_step(d), dir_step(d), reach(x, y, d) as nat, 0u64)
}

/// All the stones flipped by a stone of the `mine` colour put at `(x, y)`.
pub open spec fn flips(mine: u64, oppo: u64, x: int, y: int) -> u64 {
    dir_flips(mine, oppo, x, y, 0) | dir_flips(mine, oppo, x, y, 1) | dir_flips(
        mine,
        oppo,
        x,
        y,
        2,
    ) | dir_flips(mine, oppo, x, y, 3) | dir_flips(mine, oppo, x, y, 4) | dir_flips(
        mine,
        oppo,
        x,
        y,
        5,
    ) | dir_flips(mine, oppo, x, y, 6) | dir_flips(mine, oppo, x, y, 7)
}

/// Walks one direction from cell `p` and gives the stones it flips.
fn scan_ray(mine: u64, oppo: u64, p: u64, s: u64, forward: bool, n: u64) -> (rev: u64)
    requires
        p < 64,
        1 <= s <= 9,
        n <= 64,
    ensures
        rev == ray(
            mine,
            oppo,
            if forward { p + s } else { p - s },
            if forward { s as int } else { -(s as int) },
            n as nat,
            0u64,
        ),
{
    let ghost step: int = if forward { s as int } else { -(s as int) };
    let ghost c0: int = p + step;
    let ghost mut c: int = c0;
    proof {
        lemma_shift_cell(p as int, s);
    }
    let mut bit: u64 = if forward { (1u64 << p) << s } else { (1u64 << p) >> s };
    let mut rev: u64 = 0;
    let mut i: u64 = 0;
    while i < n
        invariant
            i <= n,
            n <= 64,
            1 <= s <= 9,
            step == if forward { s as int } else { -(s as int) },
            bit == cell(c),
            c0 == (if forward { p + s } else { p - s }),
            forward ==> c >= 0,
            !forward ==> c < 64,
            ray(mine, oppo, c0, step, n as nat, 0u64) == ray(
                mine,
                oppo,
                c,
                step,
                (n - i) as nat,
                rev,
            ),
        decreases n - i,
    {
        proof {
            lemma_test_cell(mine, c);
            lemma_test_cell(oppo, c);
            lemma_shift_cell(c, s);
        }
        if (mine & bit) != 0 {
            assert(ray(mine, oppo, c, step, (n - i) as nat, rev) == rev);
            return rev;
        } else if (oppo & bit) != 0 {
            rev = rev | bit;
        } else {
            assert(ray(mine, oppo, c, step, (n - i) as nat, rev) == 0);
            return 0;
        }
        if forward {
            bit = bit << s;
        } else {
            bit = bit >> s;
        }
        proof {
            c = c + step;
        }
        i = i + 1;
    }
    0
}

/// The number of cells looked at in direction `d` from `(x, y)`.
fn reach_exec(x: u64, y: u64, d: u64) -> (n: u64)
    requires
        x * 8 + y < 64,
        d < 8,
    ensures
        n == reach(x as int, y as int, d as int),
        n <= 64,
{
    let mx = if x < y { y } else { x };
    if d == 0 {
        if y < 8 { 7 - y } else { 0 }
    } else if d == 1 {
        y
    } else if d == 2 {
        7 - x
    } else if d == 3 {
        x
    } else if d == 4 {
        if mx < 7 { 7 - mx } else { 0 }
    } else if d == 5 {
        let a = 7 - x;
        let b = if y < 7 { y } else { 7 };
        if a < b { a } else { b }
    } else if d == 6 {
        let b = if y < 7 { y } else { 7 };
        if x < b { x } else { b }
    } else {
        if y < 8 {
            let b = 7 - y;
            if x < b { x } else { b }
        } else {
            0
        }
    }
}

/// The stones flipped in direction `d` by a stone put at `(x, y)`.
fn dir_flips_exec(mine: u64, oppo: u64, x: u64, y: u64, d: u64) -> (r: u64)
    requires
        x * 8 + y < 64,
        d < 8,
    ensures
        r == dir_flips(mine, oppo, x as int, y as int, d as int),
{
    let n = reach_exec(x, y, d);
    let p = x * 8 + y;
    if d == 0 {
        scan_ray(mine, oppo, p, 1, true, n)
    } else if d == 1 {
        scan_ray(mine, oppo, p, 1, false, n)
    } else if d == 2 {
        scan_ray(mine, oppo, p, 8, true, n)
    } else if d == 3 {
        scan_ray(mine, oppo, p, 8, false, n)
    } else if d == 4 {
        scan_ray(mine, oppo, p, 9, true, n)
    } else if d == 5 {
        scan_ray(mine, oppo, p, 7, true, n)
    } else if d == 6 {
        scan_ray(mine, oppo, p, 9, false, n)
    } else {
        scan_ray(mine, oppo, p, 7, false, n)
    }
}

/// All the stones flipped by a stone of the `mine` colour put at `(x, y)`.
fn flips_exec(mine: u64, oppo: u64, x: u64, y: u64) -> (r: u64)
    requires
        x * 8 + y < 64,
    ensures
        r == flips(mine, oppo, x as int, y as int),
{
    let r0 = dir_flips_exec(mine, oppo, x, y, 0);
    let r1 = dir_flips_exec(mine, oppo, x, y, 1);
    let r2 = dir_flips_exec(mine, oppo, x, y, 2);
    let r3 = dir_flips_exec(mine, oppo, x, y, 3);
    let r4 = dir_flips_exec(mine, oppo, x, y, 4);
    let r5 = dir_flips_exec(mine, oppo, x, y, 5);
    let r6 = dir_flips_exec(mine, oppo, x, y, 6);
    let r7 = dir_flips_exec(mine, oppo, x, y, 7);
    r0 | r1 | r2 | r3 | r4 | r5 | r6 | r7
}

impl BitBoard {
    /// The stones of the side to move.
    pub open spec fn mine(self) -> u64 {
        if self.teban == SENTE {
            self.black
        } else {
            self.white
        }
    }

    /// The stones of the other side.
    pub open spec fn oppo(self) -> u64 {
        if self.teban == SENTE {
            self.white
        } else {
            self.black
        }
    }

    /// The stones flipped when the side to move puts a stone at `(x, y)`.
    pub open spec fn flips_at(self, x: int, y: int) -> u64 {
        flips(self.mine(), self.oppo(), x, y)
    }

    /// The stones of both colours.
    pub open spec fn stones(self) -> u64 {
        self.black | self.white
    }

    /// The position after the side to move puts a stone at `(x, y)`:
    /// the stone is added, the flanked stones change colour, the move passes
    /// to the other side and the pass count is reset.
    pub open spec fn after_move(self, x: int, y: int) -> BitBoard {
        let f = self.flips_at(x, y);
        let p = cell(x * 8 + y);
        if self.teban == SENTE {
            BitBoard { black: self.black | f | p, white: self.white ^ f, teban: (-self.teban) as i8, pass: 0 }
        } else {
            BitBoard { black: self.black ^ f, white: self.white | f | p, teban: (-self.teban) as i8, pass: 0 }
        }
    }

    /// The position after the side to move passes.
    pub open spec fn after_pass(self) -> BitBoard {
        BitBoard { black: self.black, white: self.white, teban: (-self.teban) as i8, pass: (self.pass + 1) as i8 }
    }

    /// Cell `i` is empty and a stone put there flips at least one stone.
    pub open spec fn legal_cell(self, i: int) -> bool {
        !bit(self.stones(), i) && self.flips_at(i / 8, i % 8) != 0u64
    }

    /// The legal moves among the first `k` cells, visited row by row
    /// (`(0, 0), (1, 0), ..., (7, 0), (0, 1), ...`), as 1-based `(x, y)` pairs.
    pub open spec fn moves_upto(self, k: nat) -> Seq<(u8, u8)>
        decreases k,
    {
        if k == 0 {
            Seq::empty()
        } else {
            let j = k - 1;
            let x = j % 8;
            let y = j / 8;
            self.moves_upto((k - 1) as nat) + if self.legal_cell(x * 8 + y) {
                seq![((x + 1) as u8, (y + 1) as u8)]
            } else {
                Seq::empty()
            }
        }
    }

    /// The legal moves of the side to move.
    pub open spec fn legal_moves(self) -> Seq<(u8, u8)> {
        self.moves_upto(64)
    }

    /// Every cell holds a stone.
    pub open spec fn full(self) -> bool {
        self.stones() == 0xffff_ffff_ffff_ffffu64
    }

    /// No cell holds both colours.
    pub open spec fn well_formed(self) -> bool {
        self.black & self.white == 0u64
    }

    /// The starting position.
    pub fn new() -> (b: BitBoard)
        ensures
            b.black == 0x0000_0010_0800_0000u64,
            b.white == 0x0000_0008_1000_0000u64,
            b.teban == SENTE,
            b.pass == 0,
    {
        BitBoard { black: 0x0000_0010_0800_0000u64, white: 0x0000_0008_1000_0000u64, teban: SENTE, pass: 0 }
    }

    /// The bit index of cell `(x, y)`.
    pub fn index(x: usize, y: usize) -> (r: usize)
        requires
            x * 8 + y <= usize::MAX,
        ensures
            r == x * 8 + y,
    {
        x * NUMCELL + y
    }

    /// Hands the move to the other side.
    pub fn flipturn(&mut self)
        requires
            old(self).teban != i8::MIN,
        ensures
            final(self).teban == -old(self).teban,
            final(self).black == old(self).black,
            final(self).white == old(self).white,
            final(self).pass == old(self).pass,
    {
        self.teban = -self.teban;
    }

    /// Forgets the passes counted so far.
    pub fn resetpass(&mut self)
        ensures
            final(self).pass == 0,
            final(self).black == old(self).black,
            final(self).white == old(self).white,
            final(self).teban == old(self).teban,
    {
        self.pass = 0;
    }

    /// The side to move passes.
    pub fn pass(&mut self)
        requires
            old(self).teban != i8::MIN,
            old(self).pass < i8::MAX,
        ensures
            final(self).teban == -old(self).teban,
            final(self).pass == old(self).pass + 1,
            final(self).black == old(self).black,
            final(self).white == old(self).white,
    {
        self.teban = -self.teban;
        self.pass = self.pass + 1;
    }

    /// Both sides passed in a row.
    pub fn is_passpass(&self) -> (r: bool)
        ensures
            r == (self.pass >= 2),
    {
        self.pass >= 2
    }

    /// A copy of this position.
    pub fn clone(&self) -> (r: BitBoard)
        ensures
            r == *self,
    {
        BitBoard { black: self.black, white: self.white, teban: self.teban, pass: self.pass }
    }

    /// Number of cells holding no stone.
    pub fn nblank(&self) -> (r: u32)
        ensures
            r as nat + popcount(self.stones()) == 64,
    {
        let n = count_ones(self.black | self.white);
        64 - n
    }

    /// The colour at `(x, y)`.
    pub fn at(&self, x: u8, y: u8) -> (r: i8)
        requires
            x * 8 + y < 64,
        ensures
            r == stone(self.black, self.white, x * 8 + y),
    {
        let bit: u64 = LSB_CELL << (BitBoard::index(x as usize, y as usize) as u64);
        assert(bit == cell(x * 8 + y));
        proof {
            lemma_test_cell(self.black, x * 8 + y);
            lemma_test_cell(self.white, x * 8 + y);
        }
        let cb = (self.black & bit) != 0;
        let cw = (self.white & bit) != 0;
        if cb {
            SENTE
        } else if cw {
            GOTE
        } else {
            BLANK
        }
    }

    /// Whether a stone of either colour is at `(x, y)`.
    pub fn exist(&self, x: u8, y: u8) -> (r: bool)
        requires
            x * 8 + y < 64,
        ensures
            r == bit(self.stones(), x * 8 + y),
    {
        let cells = self.black | self.white;
        proof {
            lemma_test_cell(cells, x * 8 + y);
        }
        (cells & (LSB_CELL << (BitBoard::index(x as usize, y as usize) as u64))) != 0
    }

    /// Puts a stone of the side to move at `(x, y)`, flipping nothing.
    pub fn set(&mut self, x: u8, y: u8)
        requires
            x * 8 + y < 64,
        ensures
            old(self).teban == SENTE ==> final(self).black == old(self).black | cell(x * 8 + y)
                && final(self).white == old(self).white & !cell(x * 8 + y),
            old(self).teban != SENTE ==> final(self).black == old(self).black & !cell(x * 8 + y)
                && final(self).white == old(self).white | cell(x * 8 + y),
            final(self).teban == old(self).teban,
            final(self).pass == old(self).pass,
    {
        let bit = LSB_CELL << (BitBoard::index(x as usize, y as usize) as u64);
        let mask = !bit;
        if self.teban == SENTE {
            self.black = self.black | bit;
            self.white = self.white & mask;
        } else {
            self.black = self.black & mask;
            self.white = self.white | bit;
        }
    }

    /// Puts a stone of the side to move at `(x, y)` and flips the stones it
    /// flanks. The side to move and the pass count stay as they were.
    pub fn reverse(&mut self, x: usize, y: usize)
        requires
            x <= 7,
            y <= 7,
        ensures
            final(self).black == old(self).after_move(x as int, y as int).black,
            final(self).white == old(self).after_move(x as int, y as int).white,
            final(self).teban == old(self).teban,
            final(self).pass == old(self).pass,
    {
        let color = self.teban;
        let mine = if color == SENTE { self.black } else { self.white };
        let oppo = if color == SENTE { self.white } else { self.black };
        let pos = LSB_CELL << (BitBoard::index(x, y) as u64);
        let revall = flips_exec(mine, oppo, x as u64, y as u64);
        if color == SENTE {
            self.black = mine | revall | pos;
            self.white = oppo ^ revall;
        } else {
            self.white = mine | revall | pos;
            self.black = oppo ^ revall;
        }
    }

    /// Whether a stone of the side to move put at `(x, y)` flips anything.
    /// The cell itself is not looked at.
    pub fn checkreverse(&self, x: usize, y: usize) -> (r: bool)
        requires
            x * 8 + y < 64,
        ensures
            r == (self.flips_at(x as int, y as int) != 0u64),
    {
        let color = self.teban;
        let mine = if color == SENTE { self.black } else { self.white };
        let oppo = if color == SENTE { self.white } else { self.black };
        let xx = x as u64;
        let yy = y as u64;
        let r0 = dir_flips_exec(mine, oppo, xx, yy, 0);
        let r1 = dir_flips_exec(mine, oppo, xx, yy, 1);
        let r2 = dir_flips_exec(mine, oppo, xx, yy, 2);
        let r3 = dir_flips_exec(mine, oppo, xx, yy, 3);
        let r4 = dir_flips_exec(mine, oppo, xx, yy, 4);
        let r5 = dir_flips_exec(mine, oppo, xx, yy, 5);
        let r6 = dir_flips_exec(mine, oppo, xx, yy, 6);
        let r7 = dir_flips_exec(mine, oppo, xx, yy, 7);
        proof {
            lemma_or8_zero(r0, r1, r2, r3, r4, r5, r6, r7);
        }
        r0 != 0 || r1 != 0 || r2 != 0 || r3 != 0 || r4 != 0 || r5 != 0 || r6 != 0 || r7 != 0
    }

    /// The cell after `(x, y)` in row order is split back into its column and row.
    proof fn lemma_cell_order(x: int, y: int)
        requires
            0 <= x < 8,
            0 <= y < 8,
        ensures
            (y * 8 + x) % 8 == x,
            (y * 8 + x) / 8 == y,
    {
        assert((y * 8 + x) % 8 == x && (y * 8 + x) / 8 == y) by (nonlinear_arith)
            requires
                0 <= x < 8,
                0 <= y < 8,
        ;
    }

    /// Plays a move. `(0, 0)` is a pass; otherwise `x` and `y` are the 1-based
    /// column and row. A move onto a stone is refused.
    pub fn make_move(&self, x: u8, y: u8) -> (r: Result<BitBoard, &'static str>)
        requires
            (x == 0 && y == 0) || (1 <= x <= 8 && 1 <= y <= 8),
            (x == 0 && y == 0) || !bit(self.stones(), (x - 1) * 8 + (y - 1)) ==> self.teban != i8::MIN,
            x == 0 && y == 0 ==> self.pass < i8::MAX,
        ensures
            x == 0 && y == 0 ==> r == Ok::<BitBoard, &'static str>(self.after_pass()),
            !(x == 0 && y == 0) && bit(self.stones(), (x - 1) * 8 + (y - 1)) ==> (r matches Err(m) && m@
                == "stone exists."@),
            !(x == 0 && y == 0) && !bit(self.stones(), (x - 1) * 8 + (y - 1)) ==> r == Ok::<
                BitBoard,
                &'static str,
            >(self.after_move(x - 1, y - 1)),
    {
        if x == 0 && y == 0 {
            let mut ban = self.clone();
            ban.pass();
            return Ok(ban);
        }
        let xc = x - 1;
        let yc = y - 1;
        if self.exist(xc, yc) {
            return Err("stone exists.");
        }
        let mut ban = self.clone();
        ban.reverse(xc as usize, yc as usize);
        ban.flipturn();
        ban.resetpass();
        Ok(ban)
    }

    /// The legal moves of the side to move, row by row.
    /// `None` when the board is full and nothing can be played;
    /// `Some` of an empty list when the side to move has to pass.
    #[verifier::rlimit(30)]
    pub fn genmove(&self) -> (r: Option<Vec<(u8, u8)>>)
        ensures
            self.legal_moves().len() == 0 && self.full() ==> r is None,
            !(self.legal_moves().len() == 0 && self.full()) ==> (r matches Some(v)
                && v@ == self.legal_moves()),
    {
        let mut ret: Vec<(u8, u8)> = Vec::new();
        let stones = self.black | self.white;
        let mut y: u64 = 0;
        while y < 8
            invariant
                y <= 8,
                stones == self.stones(),
                ret@ == self.moves_upto((y * 8) as nat),
            decreases 8 - y,
        {
            let mut x: u64 = 0;
            while x < 8
                invariant
                    y < 8,
                    x <= 8,
                    stones == self.stones(),
                    ret@ == self.moves_upto((y * 8 + x) as nat),
                decreases 8 - x,
            {
                proof {
                    Self::lemma_cell_order(x as int, y as int);
                }
                let bit: u64 = LSB_CELL << (x * 8 + y);
                proof {
                    lemma_test_cell(stones, x * 8 + y);
                }
                if (stones & bit) != 0 {
                    x = x + 1;
                    continue;
                }
                if self.checkreverse(x as usize, y as usize) {
                    ret.push(((x + 1) as u8, (y + 1) as u8));
                }
                x = x + 1;
            }
            y = y + 1;
        }
        if ret.len() == 0 {
            return if self.is_full() {
                None
            } else {
                Some(ret)
            };
        }
        Some(ret)
    }

    /// Black stones minus white stones.
    pub fn count(&self) -> (r: i8)
        ensures
            r == popcount(self.black) - popcount(self.white),
    {
        count_ones(self.black) as i8 - count_ones(self.white) as i8
    }

    /// Every cell holds a stone.
    pub fn is_full(&self) -> (r: bool)
        ensures
            r == self.full(),
    {
        (self.black | self.white) == 0xffffffffffffffffu64
    }

    /// The position turned by half a circle: cell `i` goes to cell `63 - i`.
    /// The side to move is kept and the pass count starts again from zero.
    pub fn rotate180(&self) -> (r: BitBoard)
        ensures
            is_bit_reversal(r.black, self.black),
            is_bit_reversal(r.white, self.white),
            r.teban == self.teban,
            r.pass == 0,
    {
        let mut b = BitBoard::new();
        b.teban = self.teban;
        b.black = reverse_bits(self.black);
        b.white = reverse_bits(self.white);
        b
    }

    /// Number of fixed stones of each colour (black, white): the runs along the
    /// edges from the corners and, once at least four such cells are found,
    /// the inner stones walled in by marked cells (see `fixed_marks`).
    pub fn fixedstones(&self) -> (r: (i8, i8))
        ensures
            r.0 == popcount(fixed_marks(self.black, self.white).0),
            r.1 == popcount(fixed_marks(self.black, self.white).1),
    {
        let m = fixed_marks_exec(self.black, self.white);
        (count_ones(m.0) as i8, count_ones(m.1) as i8)
    }
}

} // verus!
