use vstd::prelude::*;
use crate::bits::{bit, popcount};
use crate::bitboard::{BitBoard, PASS, SENTE};
use crate::kifu::{col_letter, list_view, Kifu};
use crate::myoption::Verbose;
use crate::notation::{rfen_off_board, rfen_parse, rfen_text};
use crate::text::{digit_char, str_chars};

verus! {

/// A game on the bit board: the position, its record, the size of the
/// search cache and how much is printed.
pub struct GameBB {
    pub ban: BitBoard,
    pub kifu: Kifu,
    pub cachesize: usize,
    pub verbose: Verbose,
}

/// The 1-based `(x, y)` of a cell code `(y - 1) * 8 + (x - 1)`; `(0, 0)` for a pass.
pub fn code_to_xy(xy: u8) -> (r: (u8, u8))
    ensures
        xy == PASS ==> r == (0u8, 0u8),
        xy != PASS ==> r == ((xy % 8 + 1) as u8, (xy / 8 + 1) as u8),
{
    if xy == PASS {
        (0, 0)
    } else {
        (xy % 8 + 1, xy / 8 + 1)
    }
}

/// The cell code `(y - 1) * 8 + (x - 1)` of a 1-based move; `PASS` for `(0, 0)`.
pub fn xy_to_code(x: u8, y: u8) -> (r: u8)
    requires
        (x == 0 && y == 0) || (1 <= x <= 8 && 1 <= y <= 8),
    ensures
        x == 0 && y == 0 ==> r == PASS,
        !(x == 0 && y == 0) ==> r == (y - 1) * 8 + (x - 1),
{
    if x == 0 && y == 0 {
        PASS
    } else {
        (y - 1) * 8 + (x - 1)
    }
}

/// The position after the side to move plays the cell code `xy`.
pub open spec fn after_code(b: BitBoard, xy: u8) -> BitBoard {
    if xy == PASS {
        b.after_pass()
    } else {
        b.after_move((xy % 8) as int, (xy / 8) as int)
    }
}

/// A cell code that can be played: a pass, or an empty cell of the board.
pub open spec fn playable(b: BitBoard, xy: u8) -> bool {
    xy == PASS || (xy < 64 && !bit(b.stones(), (xy % 8) * 8 + xy / 8))
}

impl GameBB {
    /// A game from the starting position.
    pub fn new() -> (r: GameBB)
        ensures
            r.ban == (BitBoard { black: 0x0000_0010_0800_0000u64, white: 0x0000_0008_1000_0000u64, teban: SENTE, pass: 0 }),
            r.kifu.list@.len() == 0,
            r.kifu.score is None,
            r.cachesize == 100,
            r.verbose == Verbose::Normal,
    {
        GameBB { ban: BitBoard::new(), kifu: Kifu::new(), cachesize: 100, verbose: Verbose::Normal }
    }

    /// A game from the position written in RFEN, which must be readable.
    pub fn from(rfen: &str) -> (r: GameBB)
        requires
            !rfen_off_board(rfen@),
            rfen_parse(rfen@) is Ok,
        ensures
            r.ban == rfen_parse(rfen@)->Ok_0,
            r.kifu.list@.len() == 0,
            r.kifu.score is None,
            r.cachesize == 100,
            r.verbose == Verbose::Normal,
    {
        let ban = match BitBoard::from(rfen) {
            Ok(b) => b,
            Err(_) => BitBoard::new(),
        };
        GameBB { ban, kifu: Kifu::new(), cachesize: 100, verbose: Verbose::Normal }
    }

    pub fn set_cachesize(&mut self, cachesz: usize)
        ensures
            final(self).cachesize == cachesz,
            final(self).ban == old(self).ban,
            final(self).kifu == old(self).kifu,
            final(self).verbose == old(self).verbose,
    {
        self.cachesize = cachesz;
    }

    pub fn set_verbose(&mut self, vb: &Verbose)
        ensures
            final(self).verbose == *vb,
            final(self).ban == old(self).ban,
            final(self).kifu == old(self).kifu,
            final(self).cachesize == old(self).cachesize,
    {
        self.verbose = *vb;
    }

    /// Everything is printed.
    pub fn is_verbose(&self) -> (r: bool)
        ensures
            r == (self.verbose == Verbose::Verbose),
    {
        self.verbose.is_verbose()
    }

    /// Something is printed.
    pub fn not_silent(&self) -> (r: bool)
        ensures
            r == (self.verbose != Verbose::Silent),
    {
        !self.verbose.is_silent()
    }

    /// Plays the cell code `xy` for the side to move and records it with the
    /// position it was played in. The game is over when both sides passed in
    /// a row, or when the board is full, in which case a pass of the next
    /// side is recorded as well.
    pub fn step(&mut self, xy: u8) -> (finished: bool)
        requires
            playable(old(self).ban, xy),
            old(self).ban.teban != i8::MIN,
            old(self).ban.pass < i8::MAX,
        ensures
            final(self).ban == after_code(old(self).ban, xy),
            final(self).kifu.score == old(self).kifu.score,
            finished == (final(self).ban.pass >= 2 || final(self).ban.full()),
            final(self).ban.pass < 2 && final(self).ban.full() ==> list_view(final(self).kifu.list@)
                == list_view(old(self).kifu.list@).push((xy, old(self).ban.teban, rfen_text(old(self).ban))).push(
                (PASS, final(self).ban.teban, rfen_text(final(self).ban)),
            ),
            !(final(self).ban.pass < 2 && final(self).ban.full()) ==> list_view(final(self).kifu.list@)
                == list_view(old(self).kifu.list@).push((xy, old(self).ban.teban, rfen_text(old(self).ban))),
    {
        let (x, y) = if xy == PASS {
            (0u8, 0u8)
        } else {
            (xy % 8 + 1, xy / 8 + 1)
        };
        let next = match self.ban.make_move(x, y) {
            Ok(b) => b,
            Err(_) => self.ban.clone(),
        };
        let rfen = self.ban.to_str();
        let teban = self.ban.teban;
        self.ban = next;
        self.kifu.append(xy, teban, rfen);
        if self.ban.is_passpass() {
            return true;
        }
        if self.ban.is_full() {
            let rfen = self.ban.to_str();
            let teban = self.ban.teban;
            self.kifu.append(PASS, teban, rfen);
            return true;
        }
        false
    }

    /// Records the final score: black stones minus white stones.
    pub fn finish(&mut self)
        ensures
            final(self).kifu.score matches Some(s) && s == popcount(old(self).ban.black) - popcount(old(self).ban.white),
            final(self).kifu.list == old(self).kifu.list,
            final(self).ban == old(self).ban,
    {
        let n = self.ban.count();
        self.kifu.winneris(n);
    }

    /// Reads a move typed by the player, such as `d3`: the column letter
    /// `a`-`h` and the row digit. `None` when the text does not name a cell
    /// or the cell is not among `movable`.
    pub fn read_user_move(txt: &str, movable: &Vec<(u8, u8)>) -> (r: Option<(u8, u8)>)
        requires
            txt@.len() >= 2,
        ensures
            r == user_move(txt@, movable@),
    {
        let c0 = txt.get_char(0);
        let c1 = txt.get_char(1);
        let u0 = c0 as u32;
        let u1 = c1 as u32;
        let xx: u32 = if u0 == 48 {
            0
        } else if 97 <= u0 && u0 <= 104 {
            u0 - 96
        } else {
            10
        };
        if !(48 <= u1 && u1 <= 57) {
            return None;
        }
        let yy = u1 - 48;
        if xx > 8 || yy > 8 {
            return None;
        }
        let pos = (xx as u8, yy as u8);
        assert(user_move(txt@, movable@) == if movable@.contains(pos) { Some(pos) } else { None });
        let mut i: usize = 0;
        while i < movable.len()
            invariant
                i <= movable@.len(),
                user_move(txt@, movable@) == if movable@.contains(pos) { Some(pos) } else { None },
                forall|k: int| 0 <= k < i ==> movable@[k] != pos,
            decreases movable.len() - i,
        {
            if movable[i].0 == pos.0 && movable[i].1 == pos.1 {
                assert(movable@[i as int] == pos);
                return Some(pos);
            }
            i = i + 1;
        }
        None
    }
}

/// What `read_user_move` makes of a typed text.
pub open spec fn user_move(txt: Seq<char>, movable: Seq<(u8, u8)>) -> Option<(u8, u8)> {
    let u0 = txt[0] as u32;
    let u1 = txt[1] as u32;
    let xx: int = if u0 == 48 {
        0
    } else if 97 <= u0 <= 104 {
        u0 - 96
    } else {
        10
    };
    if !(48 <= u1 <= 57) {
        None
    } else if xx > 8 || u1 - 48 > 8 {
        None
    } else if movable.contains((xx as u8, (u1 - 48) as u8)) {
        Some((xx as u8, (u1 - 48) as u8))
    } else {
        None
    }
}

/// Typing a cell as its column letter `a`..`h` and row digit `1`..`8` gives
/// that cell when it is among the movable cells, and nothing otherwise.
pub proof fn lemma_user_move_reads_cells(txt: Seq<char>, movable: Seq<(u8, u8)>, x: int, y: int)
    requires
        txt.len() >= 2,
        1 <= x <= 8,
        1 <= y <= 8,
        txt[0] == col_letter(x),
        txt[1] == digit_char(y),
    ensures
        movable.contains((x as u8, y as u8)) ==> user_move(txt, movable) == Some((x as u8, y as u8)),
        !movable.contains((x as u8, y as u8)) ==> user_move(txt, movable) is None,
{
    assert(txt[0] as u32 == 96 + x);
    assert(txt[1] as u32 == 48 + y);
}

/// A move read from typed text is always one of the movable cells.
pub proof fn lemma_user_move_is_movable(txt: Seq<char>, movable: Seq<(u8, u8)>)
    requires
        txt.len() >= 2,
    ensures
        user_move(txt, movable) matches Some(p) ==> movable.contains(p),
{
}

} // verus!
