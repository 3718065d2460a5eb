use vstd::prelude::*;
use crate::bits::{bit, cell, lemma_bit_cell, lemma_bit_ops, lemma_bits_ext, lemma_test_cell};
use crate::bitboard::{BitBoard, BLANK, GOTE, SENTE};
use crate::text::{
    chars_to_string, fields, lemma_fields_two, lemma_words_nonempty, push_chars, split_on, split_ws,
    str_chars, words,
};

verus! {

/// The bit index of the `k`-th cell in reading order (row by row).
pub open spec fn read_index(k: int) -> int {
    (k % 8) * 8 + k / 8
}

/// The character of cell `i` in the board file format.
pub open spec fn obf_char(black: u64, white: u64, i: int) -> char {
    if bit(black, i) {
        'X'
    } else if bit(white, i) {
        'O'
    } else {
        '-'
    }
}

/// The 64 cells in reading order in the board file format.
pub open spec fn obf_cells(black: u64, white: u64) -> Seq<char> {
    Seq::new(64, |k: int| obf_char(black, white, read_index(k)))
}

/// The side to move in the board file format.
pub open spec fn obf_turn(teban: i8) -> char {
    if teban == SENTE {
        'X'
    } else if teban == GOTE {
        'O'
    } else {
        '-'
    }
}

/// A position in the board file format: the cells, a space and the side to move.
pub open spec fn obf_text(b: BitBoard) -> Seq<char> {
    obf_cells(b.black, b.white) + seq![' ', obf_turn(b.teban)]
}

/// The cells of the first `n` characters of `s` (in reading order) that are `ch`.
pub open spec fn obf_bits(s: Seq<char>, ch: char, n: nat) -> u64
    decreases n,
{
    if n == 0 {
        0u64
    } else {
        let a = obf_bits(s, ch, (n - 1) as nat);
        if s[n - 1] == ch {
            a | cell(read_index(n - 1))
        } else {
            a
        }
    }
}

/// The position read from a text in the board file format: `X` and `O` in the
/// first field are black and white stones, the second field `X` or `O` gives
/// the side to move (black otherwise).
pub open spec fn obf_parse(s: Seq<char>) -> BitBoard {
    let f = fields(s, ' ');
    BitBoard {
        black: obf_bits(f[0], 'X', f[0].len()),
        white: obf_bits(f[0], 'O', f[0].len()),
        teban: if f[1] == seq!['O'] {
            GOTE
        } else {
            SENTE
        },
        pass: 0,
    }
}

/// A board-file text can be read without a cell falling off the board.
pub open spec fn obf_readable(s: Seq<char>) -> bool {
    let f = fields(s, ' ');
    f.len() >= 2 && f[0].len() <= 71
}

impl BitBoard {
    /// Reads a position in the board file format.
    pub fn from_obf(obf: &str) -> (r: BitBoard)
        requires
            obf_readable(obf@),
        ensures
            r == obf_parse(obf@),
    {
        let chars = str_chars(obf);
        let elem = split_on(&chars, ' ');
        let cells = &elem[0];
        let mut black: u64 = 0;
        let mut white: u64 = 0;
        let mut x: u64 = 0;
        let mut y: u64 = 0;
        let mut k: usize = 0;
        while k < cells.len()
            invariant
                k <= cells@.len(),
                cells@.len() <= 71,
                x == k % 8,
                y == k / 8,
                black == obf_bits(cells@, 'X', k as nat),
                white == obf_bits(cells@, 'O', k as nat),
            decreases cells.len() - k,
        {
            let ch = cells[k];
            assert(read_index(k as int) == x * 8 + y);
            let bit: u64 = 1u64 << (x * 8 + y);
            if ch == 'X' {
                black = black | bit;
            } else if ch == 'O' {
                white = white | bit;
            }
            x = x + 1;
            if x >= 8 {
                y = y + 1;
                x = 0;
            }
            k = k + 1;
        }
        let turn = &elem[1];
        let teban = if turn.len() == 1 && turn[0] == 'X' {
            SENTE
        } else if turn.len() == 1 && turn[0] == 'O' {
            GOTE
        } else {
            SENTE
        };
        proof {
            if turn@ == seq!['O'] {
                assert(turn@[0] == 'O');
            }
            if turn@.len() == 1 && turn@[0] == 'O' {
                assert(turn@ == seq!['O']);
            }
        }
        BitBoard { black, white, teban, pass: 0 }
    }

    /// Writes the position in the board file format, e.g.
    /// `---------------------------XO------OX--------------------------- X`.
    pub fn to_obf(&self) -> (r: String)
        ensures
            r@ == obf_text(*self),
    {
        let mut v: Vec<char> = Vec::new();
        let black = self.black;
        let white = self.white;
        let mut k: u64 = 0;
        while k < 64
            invariant
                k <= 64,
                v@ == obf_cells(black, white).subrange(0, k as int),
            decreases 64 - k,
        {
            let x = k % 8;
            let y = k / 8;
            let bit: u64 = 1u64 << (x * 8 + y);
            proof {
                lemma_test_cell(black, x * 8 + y);
                lemma_test_cell(white, x * 8 + y);
            }
            let cb = (black & bit) != 0;
            let cw = (white & bit) != 0;
            v.push(
                if cb {
                    'X'
                } else if cw {
                    'O'
                } else {
                    '-'
                },
            );
            assert(v@ =~= obf_cells(black, white).subrange(0, k + 1));
            k = k + 1;
        }
        v.push(' ');
        v.push(
            if self.teban == SENTE {
                'X'
            } else if self.teban == GOTE {
                'O'
            } else {
                '-'
            },
        );
        assert(v@ =~= obf_text(*self));
        chars_to_string(&v)
    }
}

proof fn lemma_obf_bits(s: Seq<char>, ch: char, n: nat, i: int)
    requires
        n <= s.len(),
        0 <= i < 64,
    ensures
        bit(obf_bits(s, ch, n), i) == exists|k: int| 0 <= k < n && s[k] == ch && read_index(k) == i,
    decreases n,
{
    if n == 0 {
        lemma_bit_ops(0, 0, i);
    } else {
        lemma_obf_bits(s, ch, (n - 1) as nat, i);
        let a = obf_bits(s, ch, (n - 1) as nat);
        if s[n - 1] == ch {
            lemma_bit_ops(a, cell(read_index(n - 1)), i);
            lemma_bit_cell(read_index(n - 1), i);
            if read_index(n - 1) == i {
                assert(s[n - 1] == ch && read_index(n - 1) == i);
            }
        }
        if exists|k: int| 0 <= k < n && s[k] == ch && read_index(k) == i {
            let k = choose|k: int| 0 <= k < n && s[k] == ch && read_index(k) == i;
            if k < n - 1 {
                assert(0 <= k < n - 1 && s[k] == ch && read_index(k) == i);
            }
        }
    }
}

proof fn lemma_read_index(i: int, k: int)
    requires
        0 <= i < 64,
        0 <= k < 64,
    ensures
        read_index(read_index(i)) == i,
        0 <= read_index(k) < 64,
        read_index(k) == i ==> k == read_index(i),
{
}

/// Reading back the board file text of a position gives the position again,
/// with the pass count reset, when no cell holds both colours and the side to
/// move is black or white.
pub proof fn lemma_obf_roundtrip(b: BitBoard)
    requires
        b.well_formed(),
        b.teban == SENTE || b.teban == GOTE,
    ensures
        obf_readable(obf_text(b)),
        obf_parse(obf_text(b)) == (BitBoard { black: b.black, white: b.white, teban: b.teban, pass: 0 }),
{
    let cells = obf_cells(b.black, b.white);
    let t = seq![obf_turn(b.teban)];
    lemma_fields_two(cells, t, ' ');
    assert(obf_text(b) == cells + seq![' '] + t);
    let r = obf_parse(obf_text(b));
    assert forall|i: int| 0 <= i < 64 implies #[trigger] bit(r.black, i) == bit(b.black, i) by {
        lemma_obf_bits(cells, 'X', 64, i);
        let k = read_index(i);
        lemma_read_index(i, k);
        if bit(b.black, i) {
            assert(cells[k] == 'X' && read_index(k) == i);
        }
        if exists|j: int| 0 <= j < 64 && cells[j] == 'X' && read_index(j) == i {
            let j = choose|j: int| 0 <= j < 64 && cells[j] == 'X' && read_index(j) == i;
            lemma_read_index(i, j);
        }
    }
    assert forall|i: int| 0 <= i < 64 implies #[trigger] bit(r.white, i) == bit(b.white, i) by {
        lemma_obf_bits(cells, 'O', 64, i);
        lemma_bit_ops(b.black, b.white, i);
        lemma_bit_ops(0, 0, i);
        let k = read_index(i);
        lemma_read_index(i, k);
        if bit(b.white, i) {
            assert(cells[k] == 'O' && read_index(k) == i);
        }
        if exists|j: int| 0 <= j < 64 && cells[j] == 'O' && read_index(j) == i {
            let j = choose|j: int| 0 <= j < 64 && cells[j] == 'O' && read_index(j) == i;
            lemma_read_index(i, j);
        }
    }
    lemma_bits_ext(r.black, b.black);
    lemma_bits_ext(r.white, b.white);
    if b.teban == SENTE {
        assert(t != seq!['O']);
    }
}

/// The character `'0' + n`, `'A' + n - 1` or `'a' + n - 1` naming a run of
/// `n` empty cells, black stones or white stones.
pub open spec fn run_letter(color: i8, n: int) -> char {
    if color == SENTE {
        ((64 + n) as u32) as char
    } else if color == GOTE {
        ((96 + n) as u32) as char
    } else {
        ((48 + n) as u32) as char
    }
}

/// The text of a run: nothing before the first cell is seen.
pub open spec fn emit_run(color: i8, n: int) -> Seq<char> {
    if color == SENTE || color == GOTE || color == BLANK {
        seq![run_letter(color, n)]
    } else {
        Seq::empty()
    }
}

/// Run-length text of the colours `s[i..]`, the current run being `count`
/// cells of colour `old`.
pub open spec fn rle_from(s: Seq<i8>, i: int, old: i8, count: int) -> Seq<char>
    decreases s.len() - i,
{
    if i >= s.len() {
        emit_run(old, count)
    } else if s[i] == old {
        rle_from(s, i + 1, old, count + 1)
    } else {
        emit_run(old, count) + rle_from(s, i + 1, s[i], 1)
    }
}

/// The colours of row `y`, from left to right.
pub open spec fn row_colors(black: u64, white: u64, y: int) -> Seq<i8> {
    Seq::new(8, |x: int| crate::bitboard::stone(black, white, x * 8 + y))
}

/// The RFEN text of row `y`.
pub open spec fn rfen_row(black: u64, white: u64, y: int) -> Seq<char> {
    rle_from(row_colors(black, white, y), 0, crate::bitboard::NONE, 0)
}

/// The RFEN text of rows `0..n`, separated by `/`.
pub open spec fn rfen_rows(black: u64, white: u64, n: nat) -> Seq<char>
    decreases n,
{
    if n == 0 {
        Seq::empty()
    } else if n == 1 {
        rfen_row(black, white, 0)
    } else {
        rfen_rows(black, white, (n - 1) as nat) + seq!['/'] + rfen_row(black, white, n - 1)
    }
}

/// The side to move in RFEN: `b`, `w`, or `f` for neither.
pub open spec fn rfen_turn(teban: i8) -> char {
    if teban == SENTE {
        'b'
    } else if teban == GOTE {
        'w'
    } else {
        'f'
    }
}

/// The RFEN text of a position, e.g. `8/8/8/3Aa3/3aA3/8/8/8 b`.
pub open spec fn rfen_text(b: BitBoard) -> Seq<char> {
    rfen_rows(b.black, b.white, 8) + seq![' ', rfen_turn(b.teban)]
}

fn run_letter_exec(color: i8, n: u64) -> (c: char)
    requires
        1 <= n <= 8,
    ensures
        c == run_letter(color, n as int),
{
    if color == SENTE {
        match n {
            1 => 'A',
            2 => 'B',
            3 => 'C',
            4 => 'D',
            5 => 'E',
            6 => 'F',
            7 => 'G',
            _ => 'H',
        }
    } else if color == GOTE {
        match n {
            1 => 'a',
            2 => 'b',
            3 => 'c',
            4 => 'd',
            5 => 'e',
            6 => 'f',
            7 => 'g',
            _ => 'h',
        }
    } else {
        match n {
            1 => '1',
            2 => '2',
            3 => '3',
            4 => '4',
            5 => '5',
            6 => '6',
            7 => '7',
            _ => '8',
        }
    }
}

fn rfen_row_exec(black: u64, white: u64, y: u64, v: &mut Vec<char>)
    requires
        y < 8,
    ensures
        final(v)@ == old(v)@ + rfen_row(black, white, y as int),
{
    let ghost s = row_colors(black, white, y as int);
    let mut old_c: i8 = crate::bitboard::NONE;
    let mut count: u64 = 0;
    let mut x: u64 = 0;
    while x < 8
        invariant
            x <= 8,
            y < 8,
            s == row_colors(black, white, y as int),
            x == 0 ==> old_c == crate::bitboard::NONE && count == 0,
            x > 0 ==> 1 <= count <= x && old_c == s[x - 1] && (old_c == SENTE || old_c == GOTE
                || old_c == BLANK),
            v@ + rle_from(s, x as int, old_c, count as int) == old(v)@ + rfen_row(
                black,
                white,
                y as int,
            ),
        decreases 8 - x,
    {
        let bit: u64 = 1u64 << (x * 8 + y);
        proof {
            lemma_test_cell(black, x * 8 + y);
            lemma_test_cell(white, x * 8 + y);
        }
        let cb = (black & bit) != 0;
        let cw = (white & bit) != 0;
        let c = if cb {
            SENTE
        } else if cw {
            GOTE
        } else {
            BLANK
        };
        assert(c == s[x as int]);
        if c == old_c {
            count = count + 1;
        } else {
            if old_c == SENTE || old_c == GOTE || old_c == BLANK {
                v.push(run_letter_exec(old_c, count));
            }
            proof {
                assert(v@ + rle_from(s, x + 1, c, 1) =~= old(v)@ + rfen_row(black, white, y as int))
                    by {
                    assert(rle_from(s, x as int, old_c, count as int) == emit_run(
                        old_c,
                        count as int,
                    ) + rle_from(s, x + 1, c, 1));
                }
            }
            old_c = c;
            count = 1;
        }
        x = x + 1;
    }
    v.push(run_letter_exec(old_c, count));
    assert(v@ =~= old(v)@ + rfen_row(black, white, y as int));
}

impl BitBoard {
    /// Writes the position in RFEN: rows from top to bottom separated by `/`,
    /// each a run-length text of its cells, then the side to move.
    pub fn to_str(&self) -> (r: String)
        ensures
            r@ == rfen_text(*self),
    {
        let mut v: Vec<char> = Vec::new();
        let mut y: u64 = 0;
        while y < 8
            invariant
                y <= 8,
                v@ == rfen_rows(self.black, self.white, y as nat),
            decreases 8 - y,
        {
            if y > 0 {
                v.push('/');
            }
            rfen_row_exec(self.black, self.white, y, &mut v);
            y = y + 1;
        }
        v.push(' ');
        v.push(
            if self.teban == SENTE {
                'b'
            } else if self.teban == GOTE {
                'w'
            } else {
                'f'
            },
        );
        assert(v@ =~= rfen_text(*self));
        chars_to_string(&v)
    }
}

/// `n` cells in a row starting from the lowest bit, one per column.
pub open spec fn bitptn(n: int) -> u64 {
    if n == 1 {
        0x1u64
    } else if n == 2 {
        0x101u64
    } else if n == 3 {
        0x10101u64
    } else if n == 4 {
        0x1010101u64
    } else if n == 5 {
        0x101010101u64
    } else if n == 6 {
        0x10101010101u64
    } else if n == 7 {
        0x1010101010101u64
    } else if n == 8 {
        0x101010101010101u64
    } else {
        0u64
    }
}

/// The state of reading the cells of an RFEN text.
pub enum RfenScan {
    /// Stones read so far and the next cell `(x, y)`.
    Go { black: u64, white: u64, x: int, y: int },
    /// A character that is not part of RFEN was met.
    Bad { ch: char },
    /// A run of stones started off the board.
    Off,
}

/// One character of the cells of an RFEN text.
pub open spec fn rfen_step(st: RfenScan, ch: char) -> RfenScan {
    match st {
        RfenScan::Go { black, white, x, y } => {
            let u = ch as u32;
            if 65 <= u <= 72 || 97 <= u <= 104 {
                let n = if u <= 72 { u - 64 } else { u - 96 };
                if x * 8 + y >= 64 {
                    RfenScan::Off
                } else {
                    let run = bitptn(n) << ((x * 8 + y) as u64);
                    if u <= 72 {
                        RfenScan::Go { black: black | run, white, x: x + n, y }
                    } else {
                        RfenScan::Go { black, white: white | run, x: x + n, y }
                    }
                }
            } else if 49 <= u <= 56 {
                RfenScan::Go { black, white, x: x + (u - 48), y }
            } else if ch == '/' {
                RfenScan::Go { black, white, x: 0, y: y + 1 }
            } else {
                RfenScan::Bad { ch }
            }
        },
        _ => st,
    }
}

/// The state after reading the first `n` characters of the cells `s`.
pub open spec fn rfen_scan(s: Seq<char>, n: nat) -> RfenScan
    decreases n,
{
    if n == 0 {
        RfenScan::Go { black: 0, white: 0, x: 0, y: 0 }
    } else {
        rfen_step(rfen_scan(s, (n - 1) as nat), s[n - 1])
    }
}

/// The side to move named by the second RFEN field.
pub open spec fn rfen_teban(t: Seq<char>) -> Option<i8> {
    if t == seq!['b'] {
        Some(SENTE)
    } else if t == seq!['w'] {
        Some(GOTE)
    } else if t == seq!['f'] {
        Some(BLANK)
    } else {
        None
    }
}

/// The second field names none of the sides.
pub open spec fn no_turn_letter(t: Seq<char>) -> bool {
    forall|i: int| 0 <= i < t.len() ==> t[i] != 'b' && t[i] != 'f' && t[i] != 'w'
}

/// Reading an RFEN text would run a stone off the board.
pub open spec fn rfen_off_board(s: Seq<char>) -> bool {
    let w = words(s);
    w.len() == 2 && rfen_teban(w[1]) is Some && rfen_scan(w[0], w[0].len()) is Off
}

/// The result of reading an RFEN text: the position, or the error message.
pub open spec fn rfen_parse(s: Seq<char>) -> Result<BitBoard, Seq<char>> {
    let w = words(s);
    if w.len() != 2 || no_turn_letter(w[1]) {
        Err("Invalid rfen"@)
    } else if rfen_teban(w[1]) is None {
        Err("Invalid teban: "@ + w[1])
    } else {
        match rfen_scan(w[0], w[0].len()) {
            RfenScan::Go { black, white, x, y } => Ok(
                BitBoard { black, white, teban: rfen_teban(w[1])->0, pass: 0 },
            ),
            RfenScan::Bad { ch } => Err("unknown letter rfen ["@ + seq![ch] + "]"@),
            RfenScan::Off => Err(Seq::empty()),
        }
    }
}

fn bitptn_exec(n: u64) -> (r: u64)
    ensures
        r == bitptn(n as int),
{
    match n {
        1 => 0x1u64,
        2 => 0x101u64,
        3 => 0x10101u64,
        4 => 0x1010101u64,
        5 => 0x101010101u64,
        6 => 0x10101010101u64,
        7 => 0x1010101010101u64,
        8 => 0x101010101010101u64,
        _ => 0u64,
    }
}

fn string_of(v: &Vec<char>) -> (r: String)
    ensures
        r@ == v@,
{
    chars_to_string(v)
}

impl BitBoard {
    /// Reads a position in RFEN. Errors: `Invalid rfen` when the text is not
    /// two words or the second holds none of `b`, `f`, `w`; `Invalid teban: ..`
    /// when the second word is not exactly one of them; `unknown letter rfen [..]`
    /// at the first character of the cells that is not `A`-`H`, `a`-`h`,
    /// `1`-`8` or `/`.
    pub fn from(rfen: &str) -> (r: Result<BitBoard, String>)
        requires
            !rfen_off_board(rfen@),
        ensures
            match rfen_parse(rfen@) {
                Ok(b) => r == Ok::<BitBoard, String>(b),
                Err(m) => r matches Err(e) && e@ == m,
            },
    {
        match Self::read_rfen(rfen) {
            Some(r) => r,
            None => Err(string_of(&Vec::new())),
        }
    }

    /// Reads a position in RFEN as `from` does; `None` when a run of stones
    /// would start off the board (see `rfen_off_board`).
    pub fn read_rfen(rfen: &str) -> (r: Option<Result<BitBoard, String>>)
        ensures
            r is None <==> rfen_off_board(rfen@),
            r matches Some(x) ==> match rfen_parse(rfen@) {
                Ok(b) => x == Ok::<BitBoard, String>(b),
                Err(m) => x matches Err(e) && e@ == m,
            },
    {
        let chars = str_chars(rfen);
        let elem = split_ws(&chars);
        let ghost w = words(rfen@);
        proof {
            lemma_words_nonempty(rfen@);
        }
        if elem.len() != 2 {
            return Some(Err(string_of(&str_chars("Invalid rfen"))));
        }
        let t = &elem[1];
        let mut any = false;
        let mut i: usize = 0;
        while i < t.len()
            invariant
                i <= t@.len(),
                any == exists|j: int| 0 <= j < i && (t@[j] == 'b' || t@[j] == 'f' || t@[j] == 'w'),
            decreases t.len() - i,
        {
            if t[i] == 'b' || t[i] == 'f' || t[i] == 'w' {
                any = true;
            }
            i = i + 1;
        }
        if !any {
            proof {
                if w[1] == seq!['b'] || w[1] == seq!['w'] || w[1] == seq!['f'] {
                    assert(t@[0] == w[1][0]);
                }
            }
            return Some(Err(string_of(&str_chars("Invalid rfen"))));
        }
        let teban: i8;
        if t.len() == 1 && t[0] == 'b' {
            teban = SENTE;
            assert(t@ == seq!['b']);
        } else if t.len() == 1 && t[0] == 'w' {
            teban = GOTE;
            assert(t@ == seq!['w']);
        } else if t.len() == 1 && t[0] == 'f' {
            teban = BLANK;
            assert(t@ == seq!['f']);
        } else {
            proof {
                if t@ == seq!['b'] || t@ == seq!['w'] || t@ == seq!['f'] {
                    assert(t@.len() == 1);
                }
            }
            let mut m = str_chars("Invalid teban: ");
            push_chars(&mut m, t);
            return Some(Err(string_of(&m)));
        }
        let cells = &elem[0];
        let mut black: u64 = 0;
        let mut white: u64 = 0;
        let mut x: u64 = 0;
        let mut y: u64 = 0;
        let mut k: usize = 0;
        while k < cells.len()
            invariant
                k <= cells@.len(),
                w == words(rfen@),
                w.len() == 2,
                !no_turn_letter(w[1]),
                rfen_teban(w[1]) == Some(teban),
                cells@ == w[0],
                x <= 64,
                y <= 64,
                ({
                    let st = rfen_scan(cells@, k as nat);
                    st matches RfenScan::Go { black: b, white: wh, x: sx, y: sy } && b == black
                        && wh == white && x == (if sx < 64 { sx } else { 64 }) && y == (if sy
                        < 64 { sy } else { 64 })
                }),
            decreases cells.len() - k,
        {
            let ch = cells[k];
            let u = ch as u32;
            if (65 <= u && u <= 72) || (97 <= u && u <= 104) {
                let n: u64 = if u <= 72 { (u - 64) as u64 } else { (u - 96) as u64 };
                if x * 8 + y >= 64 {
                    proof {
                        assert(rfen_scan(cells@, (k + 1) as nat) is Off);
                        lemma_scan_stays_off(cells@, (k + 1) as nat, cells@.len());
                    }
                    return None;
                }
                let run = bitptn_exec(n) << (x * 8 + y);
                if u <= 72 {
                    black = black | run;
                } else {
                    white = white | run;
                }
                x = x + n;
            } else if 49 <= u && u <= 56 {
                x = x + (u - 48) as u64;
                if x > 64 {
                    x = 64;
                }
            } else if ch == '/' {
                x = 0;
                y = y + 1;
                if y > 64 {
                    y = 64;
                }
            } else {
                proof {
                    lemma_scan_stays_bad(cells@, (k + 1) as nat, cells@.len(), ch);
                }
                let mut m = str_chars("unknown letter rfen [");
                m.push(ch);
                let close = str_chars("]");
                push_chars(&mut m, &close);
                assert(m@ =~= "unknown letter rfen ["@ + seq![ch] + "]"@);
                return Some(Err(string_of(&m)));
            }
            k = k + 1;
        }
        assert(cells@.len() == w[0].len());
        Some(Ok(BitBoard { black, white, teban, pass: 0 }))
    }
}

proof fn lemma_scan_stays_off(s: Seq<char>, n: nat, m: nat)
    requires
        n <= m,
        rfen_scan(s, n) is Off,
    ensures
        rfen_scan(s, m) is Off,
    decreases m - n,
{
    if n < m {
        lemma_scan_stays_off(s, n, (m - 1) as nat);
    }
}

proof fn lemma_scan_stays_bad(s: Seq<char>, n: nat, m: nat, ch: char)
    requires
        n <= m,
        rfen_scan(s, n) == (RfenScan::Bad { ch }),
    ensures
        rfen_scan(s, m) == (RfenScan::Bad { ch }),
    decreases m - n,
{
    if n < m {
        lemma_scan_stays_bad(s, n, (m - 1) as nat, ch);
    }
}

/// The digit of cell `i` in a position id: 2 for black, 0 for white, 1 for empty.
pub open spec fn id_digit(black: u64, white: u64, i: int) -> int {
    crate::bitboard::stone(black, white, i) + 1
}

/// The base-3 number made of the digits of cells `4 * k .. 4 * k + 4`
/// (the lowest cell is the most significant digit).
pub open spec fn id_value(black: u64, white: u64, k: int) -> int {
    ((id_digit(black, white, 4 * k) * 3 + id_digit(black, white, 4 * k + 1)) * 3 + id_digit(
        black,
        white,
        4 * k + 2,
    )) * 3 + id_digit(black, white, 4 * k + 3)
}

impl BitBoard {
    /// The position as 16 bytes: byte `k` is the base-3 number of cells
    /// `4k..4k+4` (black 2, empty 1, white 0), with the top bit set when white
    /// is to move (or no side is).
    pub fn to_id(&self) -> (r: [u8; 16])
        ensures
            forall|k: int|
                0 <= k < 16 ==> #[trigger] r@[k] == (id_value(self.black, self.white, k) as u8 | if self.teban
                    == SENTE {
                    0u8
                } else {
                    0x80u8
                }),
    {
        let mut res: [u8; 16] = [0; 16];
        let black = self.black;
        let white = self.white;
        let tbn: u8 = if self.teban == SENTE { 0x00 } else { 0x80 };
        let mut idx: usize = 0;
        while idx < 16
            invariant
                idx <= 16,
                black == self.black,
                white == self.white,
                tbn == if self.teban == SENTE { 0u8 } else { 0x80u8 },
                forall|k: int| 0 <= k < idx ==> #[trigger] res@[k] == (id_value(black, white, k) as u8 | tbn),
            decreases 16 - idx,
        {
            let mut id: u8 = 0;
            let mut j: u64 = 0;
            while j < 4
                invariant
                    j <= 4,
                    idx < 16,
                    id as int == if j == 0 {
                        0
                    } else if j == 1 {
                        id_digit(black, white, 4 * idx)
                    } else if j == 2 {
                        id_digit(black, white, 4 * idx) * 3 + id_digit(black, white, 4 * idx + 1)
                    } else if j == 3 {
                        (id_digit(black, white, 4 * idx) * 3 + id_digit(black, white, 4 * idx + 1))
                            * 3 + id_digit(black, white, 4 * idx + 2)
                    } else {
                        id_value(black, white, idx as int)
                    },
                decreases 4 - j,
            {
                let p = (idx as u64) * 4 + j;
                let bit: u64 = 1u64 << p;
                proof {
                    lemma_test_cell(black, p as int);
                    lemma_test_cell(white, p as int);
                }
                let cb = (black & bit) != 0;
                let cw = (white & bit) != 0;
                let c: i8 = if cb {
                    SENTE
                } else if cw {
                    GOTE
                } else {
                    BLANK
                };
                id = id * 3 + (c + 1) as u8;
                j = j + 1;
            }
            res[idx] = id | tbn;
            idx = idx + 1;
        }
        res
    }

    /// The same bytes as `to_id`.
    pub fn to_id_simd(&self) -> (r: [u8; 16])
        ensures
            forall|k: int|
                0 <= k < 16 ==> #[trigger] r@[k] == (id_value(self.black, self.white, k) as u8 | if self.teban
                    == SENTE {
                    0u8
                } else {
                    0x80u8
                }),
    {
        self.to_id()
    }
}

/// The number of empty cells named by the digits among the first `n`
/// characters of an RFEN text.
pub open spec fn empties(s: Seq<char>, n: nat) -> int
    decreases n,
{
    if n == 0 {
        0
    } else {
        let u = s[n - 1] as u32;
        empties(s, (n - 1) as nat) + if 49 <= u <= 56 {
            u - 48
        } else {
            0
        }
    }
}

/// A character that may stand before the space in an RFEN text.
pub open spec fn rfen_cell_char(c: char) -> bool {
    let u = c as u32;
    (65 <= u <= 72) || (97 <= u <= 104) || (49 <= u <= 56) || c == '/'
}

/// The index of the first character of `s` that is not an RFEN cell character
/// (the space that ends the cells, or an unknown letter), or `s.len()`.
pub open spec fn cells_end(s: Seq<char>) -> int
    decreases s.len(),
{
    if s.len() == 0 {
        0
    } else if !rfen_cell_char(s[0]) {
        0
    } else {
        1 + cells_end(s.drop_first())
    }
}

/// The count of empty cells of an RFEN text, or its error message.
pub open spec fn emptycells_result(s: Seq<char>) -> Result<int, Seq<char>> {
    let e = cells_end(s);
    if e == s.len() {
        Err("invalid format ["@ + s + "]"@)
    } else if s[e] == ' ' {
        Ok(empties(s, e as nat))
    } else {
        Err("unknown letter rfen ["@ + seq![s[e]] + "]"@)
    }
}

proof fn lemma_cells_end(s: Seq<char>)
    ensures
        0 <= cells_end(s) <= s.len(),
        forall|i: int| 0 <= i < cells_end(s) ==> #[trigger] rfen_cell_char(s[i]),
        cells_end(s) < s.len() ==> !rfen_cell_char(s[cells_end(s)]),
    decreases s.len(),
{
    if s.len() > 0 && rfen_cell_char(s[0]) {
        lemma_cells_end(s.drop_first());
        assert forall|i: int| 0 <= i < cells_end(s) implies #[trigger] rfen_cell_char(s[i]) by {
            if i > 0 {
                assert(s[i] == s.drop_first()[i - 1]);
            }
        }
    }
}

proof fn lemma_empties_mono(s: Seq<char>, a: nat, b: nat)
    requires
        a <= b <= s.len(),
    ensures
        empties(s, a) <= empties(s, b),
        empties(s, a) >= 0,
    decreases b,
{
    if a < b {
        lemma_empties_mono(s, a, (b - 1) as nat);
    } else {
        lemma_empties_nonneg(s, a);
    }
}

proof fn lemma_empties_nonneg(s: Seq<char>, a: nat)
    ensures
        empties(s, a) >= 0,
    decreases a,
{
    if a > 0 {
        lemma_empties_nonneg(s, (a - 1) as nat);
    }
}

/// Counts the empty cells of an RFEN text: the sum of the digits before the
/// first space. Errors: `unknown letter rfen [c]` at the first character that
/// is not part of RFEN, `invalid format [text]` when no space is found.
pub fn count_emptycells(rfen: &str) -> (r: Result<i8, String>)
    requires
        empties(rfen@, cells_end(rfen@) as nat) <= i8::MAX,
    ensures
        match emptycells_result(rfen@) {
            Ok(n) => r == Ok::<i8, String>(n as i8),
            Err(m) => r matches Err(e) && e@ == m,
        },
        r matches Ok(n) ==> 0 <= n,
        emptycells_result(rfen@) matches Ok(n) ==> 0 <= n <= i8::MAX,
{
    let s = str_chars(rfen);
    proof {
        lemma_cells_end(rfen@);
    }
    let ghost e = cells_end(rfen@);
    let mut count: i8 = 0;
    let mut i: usize = 0;
    while i < s.len()
        invariant
            i <= s@.len(),
            s@ == rfen@,
            e == cells_end(rfen@),
            i <= e,
            0 <= e <= s@.len(),
            forall|j: int| 0 <= j < e ==> #[trigger] rfen_cell_char(s@[j]),
            e < s@.len() ==> !rfen_cell_char(s@[e]),
            empties(rfen@, e as nat) <= i8::MAX,
            count == empties(s@, i as nat),
        decreases s.len() - i,
    {
        let ch = s[i];
        let u = ch as u32;
        if (65 <= u && u <= 72) || (97 <= u && u <= 104) || ch == '/' {
        } else if 49 <= u && u <= 56 {
            assert(rfen_cell_char(ch));
            assert(i < e);
            proof {
                lemma_empties_mono(s@, (i + 1) as nat, e as nat);
                lemma_empties_mono(s@, i as nat, (i + 1) as nat);
            }
            count = count + (u - 48) as i8;
        } else if ch == ' ' {
            assert(!rfen_cell_char(s@[i as int]));
            assert(i == e);
            proof {
                lemma_empties_nonneg(s@, i as nat);
            }
            return Ok(count);
        } else {
            assert(!rfen_cell_char(s@[i as int]));
            assert(i == e);
            let mut m = str_chars("unknown letter rfen [");
            m.push(ch);
            let close = str_chars("]");
            push_chars(&mut m, &close);
            assert(m@ =~= "unknown letter rfen ["@ + seq![ch] + "]"@);
            return Err(string_of(&m));
        }
        i = i + 1;
    }
    let mut m = str_chars("invalid format [");
    push_chars(&mut m, &s);
    let close = str_chars("]");
    push_chars(&mut m, &close);
    assert(m@ =~= "invalid format ["@ + rfen@ + "]"@);
    Err(string_of(&m))
}

/// Counts the stones of an RFEN text: 64 minus its empty cells, with the
/// errors of `count_emptycells`.
pub fn count_stones(rfen: &str) -> (r: Result<i8, String>)
    requires
        empties(rfen@, cells_end(rfen@) as nat) <= i8::MAX,
    ensures
        match emptycells_result(rfen@) {
            Ok(n) => r == Ok::<i8, String>((64 - n) as i8),
            Err(m) => r matches Err(e) && e@ == m,
        },
{
    match count_emptycells(rfen) {
        Ok(n) => Ok(64 - n),
        Err(m) => Err(m),
    }
}

} // verus!
