use vstd::prelude::*;
use crate::bitboard::{GOTE, PASS, SENTE};
use crate::text::{
    chars_to_string, dec, dec_int, fields, is_digit, lemma_fields_nonempty, lemma_words_nonempty,
    parse_i8, parse_i8_exec, push_chars, push_dec, push_dec_i64, split_on, split_ws, str_chars,
    words,
};

verus! {

pub const SENTEWIN: i8 = 1;
pub const DRAW: i8 = 0;
pub const GOTEWIN: i8 = -1;
pub const STR_POSX: &'static str = "0abcdefgh";
pub const HEADER: &'static str = "# reversi kifu revision 1.0\n";

/// One move of a game record: where (`x + y * 8`, or `PASS`), who played it
/// and the position it was played in.
pub struct Te {
    pub xy: u8,
    pub teban: i8,
    pub rfen: String,
}

/// A game record: the moves and, once known, the final score.
pub struct Kifu {
    pub list: Vec<Te>,
    pub score: Option<i8>,
}

/// The letter of column `x` (`1..=8`): `a` to `h`.
pub open spec fn col_letter(x: int) -> char {
    ((96 + x) as u32) as char
}

/// The text of a move position: `PS` for a pass, otherwise the column letter
/// and the 1-based row number.
pub open spec fn pos_text(xy: u8) -> Seq<char> {
    if xy == PASS {
        seq!['P', 'S']
    } else {
        seq![col_letter(xy % 8 + 1)] + dec((xy / 8 + 1) as nat)
    }
}

/// The mark of the side that moved: `@@` for black, `[]` for white.
pub open spec fn stone_text(teban: i8) -> Seq<char> {
    if teban == SENTE {
        seq!['@', '@']
    } else if teban == GOTE {
        seq!['[', ']']
    } else {
        seq![' ', ' ']
    }
}

/// The record line of a move: number, side, position and RFEN.
pub open spec fn te_line(i: nat, xy: u8, teban: i8, rfen: Seq<char>) -> Seq<char> {
    dec(i) + seq![' '] + stone_text(teban) + seq![' '] + pos_text(xy) + seq![' '] + rfen + seq![
        '\n',
    ]
}

/// The index of a character in `0abcdefgh`.
pub open spec fn posx_index(c: char) -> Option<int> {
    let u = c as u32;
    if u == 48 {
        Some(0)
    } else if 97 <= u <= 104 {
        Some(u - 96)
    } else {
        None
    }
}

/// `PS` in any ASCII case.
pub open spec fn is_pass_text(t: Seq<char>) -> bool {
    t.len() == 2 && (t[0] == 'P' || t[0] == 'p') && (t[1] == 'S' || t[1] == 's')
}

/// The side named by a record mark.
pub open spec fn side_of(t: Seq<char>) -> Option<i8> {
    if t == seq!['@', '@'] {
        Some(SENTE)
    } else if t == seq!['[', ']'] {
        Some(GOTE)
    } else {
        None
    }
}

/// A comment line of a record.
pub open spec fn is_comment(line: Seq<char>) -> bool {
    line.len() > 0 && line[0] == '#'
}

/// Reading the record line would fail on its position field: a column `0`,
/// no row, a row that is not a digit, or row `0`.
pub open spec fn te_bad_position(line: Seq<char>) -> bool {
    let e = words(line);
    &&& !is_comment(line)
    &&& e.len() == 5
    &&& side_of(e[1]) is Some
    &&& !is_pass_text(e[2])
    &&& posx_index(e[2][0]) is Some
    &&& (posx_index(e[2][0]) == Some(0int) || e[2].len() < 2 || !is_digit(e[2][1]) || (e[2][1]
        as u32) == 48)
}

/// The move read from a record line: `(xy, side, rfen)`, or `None` for a
/// comment, a line that is not five words, an unknown side mark or an
/// unknown column letter.
pub open spec fn te_parse(line: Seq<char>) -> Option<(u8, i8, Seq<char>)> {
    let e = words(line);
    if is_comment(line) || e.len() != 5 || side_of(e[1]) is None {
        None
    } else if is_pass_text(e[2]) {
        Some((PASS, side_of(e[1])->0, e[3] + seq![' '] + e[4]))
    } else {
        match posx_index(e[2][0]) {
            None => None,
            Some(x) => {
                let y = (e[2][1] as u32) - 48;
                Some(((x - 1 + y * 8 - 8) as u8, side_of(e[1])->0, e[3] + seq![' '] + e[4]))
            },
        }
    }
}

/// The content of a move: `(xy, side, rfen)`.
pub open spec fn te_view(te: Te) -> (u8, i8, Seq<char>) {
    (te.xy, te.teban, te.rfen@)
}

/// The result line of a record.
pub open spec fn score_text(score: Option<i8>) -> Seq<char> {
    match score {
        None => "on going..."@,
        Some(s) => if s < 0 {
            "GOTE won. "@ + dec_int(s as int)
        } else if s > 0 {
            "SENTE won. "@ + dec_int(s as int)
        } else {
            "DRAW."@
        },
    }
}

/// The record lines of moves `k..` of `list`, numbered from `k + 1`.
pub open spec fn moves_text(list: Seq<(u8, i8, Seq<char>)>, n: nat) -> Seq<char>
    decreases n,
{
    if n == 0 {
        Seq::empty()
    } else {
        let t = list[n - 1];
        moves_text(list, (n - 1) as nat) + te_line(n, t.0, t.1, t.2)
    }
}

fn pass_text_exec(t: &Vec<char>) -> (r: bool)
    ensures
        r == is_pass_text(t@),
{
    t.len() == 2 && (t[0] == 'P' || t[0] == 'p') && (t[1] == 'S' || t[1] == 's')
}

fn side_exec(t: &Vec<char>) -> (r: Option<i8>)
    ensures
        r == side_of(t@),
{
    if t.len() == 2 && t[0] == '@' && t[1] == '@' {
        assert(t@ == seq!['@', '@']);
        Some(SENTE)
    } else if t.len() == 2 && t[0] == '[' && t[1] == ']' {
        assert(t@ == seq!['[', ']']);
        Some(GOTE)
    } else {
        proof {
            if t@ == seq!['@', '@'] || t@ == seq!['[', ']'] {
                assert(t@.len() == 2);
            }
        }
        None
    }
}

fn push_stone_text(v: &mut Vec<char>, teban: i8)
    ensures
        final(v)@ == old(v)@ + stone_text(teban),
{
    if teban == SENTE {
        v.push('@');
        v.push('@');
    } else if teban == GOTE {
        v.push('[');
        v.push(']');
    } else {
        v.push(' ');
        v.push(' ');
    }
}

fn col_letter_exec(x: u8) -> (c: char)
    requires
        1 <= x <= 8,
    ensures
        c == col_letter(x as int),
{
    match x {
        1 => 'a',
        2 => 'b',
        3 => 'c',
        4 => 'd',
        5 => 'e',
        6 => 'f',
        7 => 'g',
        _ => 'h',
    }
}

fn push_pos_text(v: &mut Vec<char>, xy: u8)
    ensures
        final(v)@ == old(v)@ + pos_text(xy),
{
    if xy == PASS {
        v.push('P');
        v.push('S');
    } else {
        let x = xy % 8 + 1;
        let y = xy / 8 + 1;
        v.push(col_letter_exec(x));
        push_dec(v, y as u64);
        assert(v@ =~= old(v)@ + pos_text(xy));
    }
}

impl Te {
    pub fn new(xy: u8, teban: i8, rfen: String) -> (r: Te)
        ensures
            r.xy == xy,
            r.teban == teban,
            r.rfen == rfen,
    {
        Te { xy, teban, rfen }
    }

    /// Reads a record line `number side position rfen-cells rfen-side`.
    pub fn from(line: &str) -> (r: Option<Te>)
        requires
            !te_bad_position(line@),
        ensures
            match te_parse(line@) {
                None => r is None,
                Some(t) => r matches Some(te) && te_view(te) == t,
            },
    {
        let chars = str_chars(line);
        if chars.len() > 0 && chars[0] == '#' {
            return None;
        }
        let elem = split_ws(&chars);
        proof {
            lemma_words_nonempty(line@);
        }
        if elem.len() != 5 {
            return None;
        }
        let teban = match side_exec(&elem[1]) {
            Some(t) => t,
            None => {
                return None;
            },
        };
        let p = &elem[2];
        assert(p@ == words(line@)[2]);
        assert(elem@[1]@ == words(line@)[1]);
        assert(!is_comment(line@));
        let xy: u8;
        if pass_text_exec(p) {
            xy = PASS;
        } else {
            assert(p@.len() >= 1);
            let c = p[0];
            let u = c as u32;
            let x: u32;
            if u == 48 {
                x = 0;
            } else if 97 <= u && u <= 104 {
                x = u - 96;
            } else {
                return None;
            }
            assert(posx_index(p@[0]) is Some);
            assert(p@.len() >= 2 && is_digit(p@[1]) && (p@[1] as u32) != 48 && x != 0);
            let y = (p[1] as u32) - 48;
            assert(1 <= y <= 9);
            xy = (x - 1 + y * 8 - 8) as u8;
        }
        let mut rf: Vec<char> = Vec::new();
        push_chars(&mut rf, &elem[3]);
        rf.push(' ');
        push_chars(&mut rf, &elem[4]);
        Some(Te { xy, teban, rfen: chars_to_string(&rf) })
    }

    /// Whether reading the record line would fail on its position field
    /// (see `te_bad_position`).
    pub fn bad_position(line: &str) -> (r: bool)
        ensures
            r == te_bad_position(line@),
    {
        let chars = str_chars(line);
        if chars.len() > 0 && chars[0] == '#' {
            return false;
        }
        let elem = split_ws(&chars);
        proof {
            lemma_words_nonempty(line@);
        }
        if elem.len() != 5 {
            return false;
        }
        assert(elem@[1]@ == words(line@)[1]);
        if side_exec(&elem[1]).is_none() {
            return false;
        }
        let p = &elem[2];
        assert(p@ == words(line@)[2]);
        if pass_text_exec(p) {
            return false;
        }
        let u = p[0] as u32;
        if !(u == 48 || (97 <= u && u <= 104)) {
            return false;
        }
        u == 48 || p.len() < 2 || !(48 <= (p[1] as u32) && (p[1] as u32) <= 57) || (p[1] as u32) == 48
    }

    /// The position as text: `PS` for a pass, otherwise e.g. `c4`.
    pub fn pos(&self) -> (r: String)
        ensures
            r@ == pos_text(self.xy),
    {
        let mut v: Vec<char> = Vec::new();
        push_pos_text(&mut v, self.xy);
        chars_to_string(&v)
    }

    /// The record line of this move as move number `i`.
    pub fn to_str(&self, i: usize) -> (r: String)
        ensures
            r@ == te_line(i as nat, self.xy, self.teban, self.rfen@),
    {
        let mut v: Vec<char> = Vec::new();
        push_dec(&mut v, i as u64);
        v.push(' ');
        push_stone_text(&mut v, self.teban);
        v.push(' ');
        push_pos_text(&mut v, self.xy);
        v.push(' ');
        let r = str_chars(self.rfen.as_str());
        push_chars(&mut v, &r);
        v.push('\n');
        assert(v@ =~= te_line(i as nat, self.xy, self.teban, self.rfen@));
        chars_to_string(&v)
    }
}

/// The texts of a list of string slices.
pub open spec fn lines_view(lines: Seq<&str>) -> Seq<Seq<char>> {
    lines.map_values(|l: &str| l@)
}

/// The moves read from the first `n` lines, comments and other lines skipped.
pub open spec fn kifu_moves(lines: Seq<Seq<char>>, n: nat) -> Seq<(u8, i8, Seq<char>)>
    decreases n,
{
    if n == 0 {
        Seq::empty()
    } else {
        kifu_moves(lines, (n - 1) as nat) + match te_parse(lines[n - 1]) {
            Some(t) => seq![t],
            None => Seq::empty(),
        }
    }
}

/// The score named by the last space-separated word of the result line,
/// or 0 when it is not a number.
pub open spec fn kifu_score(last: Seq<char>) -> i8 {
    match parse_i8(fields(last, ' ').last()) {
        Some(v) => v,
        None => 0,
    }
}

/// The contents of a list of moves.
pub open spec fn list_view(list: Seq<Te>) -> Seq<(u8, i8, Seq<char>)> {
    list.map_values(|t: Te| te_view(t))
}

/// The text of a game record: its move lines, then its result line.
pub open spec fn kifu_text(list: Seq<(u8, i8, Seq<char>)>, score: Option<i8>) -> Seq<char> {
    moves_text(list, list.len()) + score_text(score)
}

impl Kifu {
    pub fn new() -> (r: Kifu)
        ensures
            r.list@.len() == 0,
            r.score is None,
    {
        Kifu { list: Vec::new(), score: None }
    }

    /// A record marked invalid by a score out of range.
    pub fn invalid() -> (r: Kifu)
        ensures
            r.list@.len() == 0,
            r.score == Some(100i8),
    {
        Kifu { list: Vec::new(), score: Some(100) }
    }

    /// Reads a game record from its lines: every line that reads as a move
    /// is a move, and the last word of the last line is the score (0 when it
    /// is not a number).
    pub fn from(lines: &Vec<&str>) -> (r: Kifu)
        requires
            lines@.len() > 0,
            forall|i: int| 0 <= i < lines@.len() ==> !te_bad_position(#[trigger] lines@[i]@),
        ensures
            list_view(r.list@) == kifu_moves(lines_view(lines@), lines@.len()),
            r.score == Some(kifu_score(lines@.last()@)),
    {
        let mut ret = Kifu { list: Vec::new(), score: None };
        let ghost lv = lines_view(lines@);
        let mut i: usize = 0;
        while i < lines.len()
            invariant
                i <= lines@.len(),
                lv == lines_view(lines@),
                forall|j: int| 0 <= j < lines@.len() ==> !te_bad_position(#[trigger] lines@[j]@),
                list_view(ret.list@) == kifu_moves(lv, i as nat),
            decreases lines.len() - i,
        {
            let l: &str = lines[i];
            assert(lv[i as int] == l@);
            let te = Te::from(l);
            match te {
                Some(t) => {
                    ret.list.push(t);
                },
                None => {},
            }
            assert(list_view(ret.list@) =~= kifu_moves(lv, (i + 1) as nat));
            i = i + 1;
        }
        let last: &str = lines[lines.len() - 1];
        let lc = str_chars(last);
        let f = split_on(&lc, ' ');
        proof {
            lemma_fields_nonempty(lc@, ' ');
        }
        let score = match parse_i8_exec(&f[f.len() - 1]) {
            Some(v) => v,
            None => 0,
        };
        ret.winneris(score);
        ret
    }

    /// A copy of the record.
    pub fn copy(&self) -> (r: Kifu)
        ensures
            list_view(r.list@) == list_view(self.list@),
            r.score == self.score,
    {
        let mut ret = Kifu::new();
        ret.score = self.score;
        let mut i: usize = 0;
        while i < self.list.len()
            invariant
                i <= self.list@.len(),
                ret.score == self.score,
                list_view(ret.list@) == list_view(self.list@).subrange(0, i as int),
            decreases self.list.len() - i,
        {
            let te = &self.list[i];
            ret.append(te.xy, te.teban, te.rfen.clone());
            assert(list_view(ret.list@) =~= list_view(self.list@).subrange(0, i + 1));
            i = i + 1;
        }
        assert(list_view(self.list@).subrange(0, self.list@.len() as int) =~= list_view(
            self.list@,
        ));
        ret
    }

    /// Adds a move at the end.
    pub fn append(&mut self, xy: u8, t: i8, rfen: String)
        ensures
            final(self).list@.len() == old(self).list@.len() + 1,
            list_view(final(self).list@) == list_view(old(self).list@).push((xy, t, rfen@)),
            final(self).score == old(self).score,
    {
        self.list.push(Te::new(xy, t, rfen));
        assert(list_view(self.list@) =~= list_view(old(self).list@).push((xy, t, rfen@)));
    }

    /// The record as text: the move lines numbered from 1, then the result line.
    pub fn to_str(&self) -> (r: String)
        ensures
            r@ == kifu_text(list_view(self.list@), self.score),
    {
        let mut v: Vec<char> = Vec::new();
        let ghost lv = list_view(self.list@);
        let mut i: usize = 0;
        while i < self.list.len()
            invariant
                i <= self.list@.len(),
                lv == list_view(self.list@),
                lv.len() == self.list@.len(),
                v@ == moves_text(lv, i as nat),
            decreases self.list.len() - i,
        {
            assert(i + 1 <= usize::MAX);
            let line = self.list[i].to_str(i + 1);
            let lc = str_chars(line.as_str());
            push_chars(&mut v, &lc);
            assert(lv[i as int] == te_view(self.list@[i as int]));
            i = i + 1;
        }
        let sc = self.score2str();
        let scc = str_chars(sc.as_str());
        push_chars(&mut v, &scc);
        chars_to_string(&v)
    }

    /// The move at `idx`.
    pub fn nth(&self, idx: usize) -> (r: &Te)
        requires
            idx < self.list@.len(),
        ensures
            *r == self.list@[idx as int],
    {
        &self.list[idx]
    }

    /// No move was recorded.
    pub fn is_empty(&self) -> (r: bool)
        ensures
            r == (self.list@.len() == 0),
    {
        self.list.len() == 0
    }

    /// No score was recorded.
    pub fn is_none(&self) -> (r: bool)
        ensures
            r == self.score is None,
    {
        self.score.is_none()
    }

    /// The score is out of the range a game can end with.
    pub fn is_invalid(&self) -> (r: bool)
        requires
            self.score is Some,
            self.score->0 != i8::MIN,
        ensures
            r == (self.score->0 > 64 || self.score->0 < -64),
    {
        let s = self.score.unwrap();
        let a = if s < 0 { -s } else { s };
        a > 64
    }

    /// The result line: `on going...`, `SENTE won. n`, `GOTE won. -n` or `DRAW.`.
    pub fn score2str(&self) -> (r: String)
        ensures
            r@ == score_text(self.score),
    {
        match self.score {
            None => chars_to_string(&str_chars("on going...")),
            Some(score) => {
                if score < 0 {
                    let mut v = str_chars("GOTE won. ");
                    push_dec_i64(&mut v, score as i64);
                    chars_to_string(&v)
                } else if score > 0 {
                    let mut v = str_chars("SENTE won. ");
                    push_dec_i64(&mut v, score as i64);
                    chars_to_string(&v)
                } else {
                    chars_to_string(&str_chars("DRAW."))
                }
            },
        }
    }

    /// Records the final score (black stones minus white stones).
    pub fn winneris(&mut self, n: i8)
        ensures
            final(self).score == Some(n),
            final(self).list == old(self).list,
    {
        self.score = Some(n);
    }

    /// The winner: `SENTEWIN`, `GOTEWIN` or `DRAW`, from the sign of the score.
    pub fn winner(&self) -> (r: Option<i8>)
        ensures
            r == match self.score {
                None => None,
                Some(s) => Some(
                    if s > 0 {
                        SENTEWIN
                    } else if s < 0 {
                        GOTEWIN
                    } else {
                        DRAW
                    },
                ),
            },
    {
        let score = match self.score {
            Some(s) => s,
            None => {
                return None;
            },
        };
        if score > 0 {
            return Some(SENTEWIN);
        }
        if score < 0 {
            return Some(GOTEWIN);
        }
        Some(DRAW)
    }
}

/// The text of a move given as 1-based `(x, y)`: column letter `a`-`h` and
/// row number, or `PASS` when either is outside `1..=8`.
pub fn postxt(x: u8, y: u8) -> (r: String)
    ensures
        !(1 <= x <= 8 && 1 <= y <= 8) ==> r@ == "PASS"@,
        (1 <= x <= 8 && 1 <= y <= 8) ==> r@ == seq![col_letter(x as int)] + dec(y as nat),
{
    if !(1 <= x && x <= 8) || !(1 <= y && y <= 8) {
        return chars_to_string(&str_chars("PASS"));
    }
    let letters = str_chars("0abcdefgh");
    proof {
        reveal_strlit("0abcdefgh");
    }
    let mut v: Vec<char> = Vec::new();
    v.push(letters[x as usize]);
    push_dec(&mut v, y as u64);
    assert(letters@[x as int] == col_letter(x as int));
    chars_to_string(&v)
}

} // verus!
