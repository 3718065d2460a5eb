use vstd::prelude::*;
use crate::bits::{bit, lemma_test_cell};
use crate::bitboard::{BitBoard, GOTE, LSB_CELL, SENTE, STONE_GOTE, STONE_SENTE};
use crate::edaxrunner::strings_view;
use crate::text::{chars_to_string, push_chars, str_chars};

verus! {

/// How cell `i` is drawn: `@@` for black, `[]` for white, `__` when empty.
pub open spec fn cell_mark(black: u64, white: u64, i: int) -> Seq<char> {
    if bit(black, i) {
        "@@"@
    } else if bit(white, i) {
        "[]"@
    } else {
        "__"@
    }
}

/// The first `n` cells of row `y`, each after a `|`.
pub open spec fn row_marks(black: u64, white: u64, y: int, n: nat) -> Seq<char>
    decreases n,
{
    if n == 0 {
        Seq::empty()
    } else {
        row_marks(black, white, y, (n - 1) as nat) + "|"@ + cell_mark(black, white, (n - 1) * 8 + y)
    }
}

/// The line under the board: whose turn it is, or that the game is over.
pub open spec fn turn_line(teban: i8) -> Seq<char> {
    if teban == SENTE {
        "@@'s turn."@
    } else if teban == GOTE {
        "[]'s turn."@
    } else {
        "finished."@
    }
}

/// The board as drawn for the player: eight rows from the top, then the turn.
pub open spec fn board_lines(b: BitBoard) -> Seq<Seq<char>> {
    Seq::new(8, |y: int| row_marks(b.black, b.white, y, 8) + "|"@).push(turn_line(b.teban))
}

impl BitBoard {
    /// The lines that show the board: one per row, cells between `|`, then
    /// whose turn it is.
    pub fn put_lines(&self) -> (r: Vec<String>)
        ensures
            strings_view(r@) == board_lines(*self),
    {
        let mut out: Vec<String> = Vec::new();
        let mut y: u64 = 0;
        while y < 8
            invariant
                y <= 8,
                strings_view(out@) == Seq::new(y as nat, |k: int| row_marks(self.black, self.white, k, 8) + "|"@),
            decreases 8 - y,
        {
            let mut line: Vec<char> = Vec::new();
            let mut x: u64 = 0;
            while x < 8
                invariant
                    y < 8,
                    x <= 8,
                    line@ == row_marks(self.black, self.white, y as int, x as nat),
                decreases 8 - x,
            {
                let cellbit: u64 = LSB_CELL << (x * 8 + y);
                proof {
                    lemma_test_cell(self.black, (x * 8 + y) as int);
                    lemma_test_cell(self.white, (x * 8 + y) as int);
                }
                push_chars(&mut line, &str_chars("|"));
                if self.black & cellbit != 0 {
                    push_chars(&mut line, &str_chars(STONE_SENTE));
                } else if self.white & cellbit != 0 {
                    push_chars(&mut line, &str_chars(STONE_GOTE));
                } else {
                    push_chars(&mut line, &str_chars("__"));
                }
                x = x + 1;
            }
            push_chars(&mut line, &str_chars("|"));
            assert(line@ == row_marks(self.black, self.white, y as int, 8) + "|"@);
            let ghost before = out@;
            let text = chars_to_string(&line);
            out.push(text);
            assert(strings_view(out@) =~= strings_view(before).push(text@));
            assert(strings_view(out@) =~= Seq::new((y + 1) as nat, |k: int| row_marks(self.black, self.white, k, 8) + "|"@));
            y = y + 1;
        }
        let last = if self.teban == SENTE {
            str_chars("@@'s turn.")
        } else if self.teban == GOTE {
            str_chars("[]'s turn.")
        } else {
            str_chars("finished.")
        };
        out.push(chars_to_string(&last));
        assert(strings_view(out@) =~= board_lines(*self));
        out
    }
}

} // verus!
