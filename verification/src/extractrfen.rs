use vstd::prelude::*;
use crate::kifu::{kifu_moves, kifu_score, lines_view, list_view, pos_text, te_bad_position, Kifu};
use crate::text::{chars_to_string, dec_int, push_chars, push_dec_i64, str_chars};

verus! {

/// The number of stones a run letter stands for: `A`-`H` and `a`-`h` are
/// runs of 1 to 8 stones; any other character stands for none.
pub open spec fn run_stones(c: char) -> int {
    let u = c as u32;
    if 65 <= u <= 72 {
        u - 64
    } else if 97 <= u <= 104 {
        u - 96
    } else {
        0
    }
}

/// The stones counted in the first `n` characters of an RFEN, and whether
/// the rest of the current rank is skipped (after a space, up to the next `/`).
pub open spec fn stones_scan(s: Seq<char>, n: nat) -> (int, bool)
    decreases n,
{
    if n == 0 {
        (0, false)
    } else {
        let (sum, skip) = stones_scan(s, (n - 1) as nat);
        let c = s[n - 1];
        if c == '/' {
            (sum, false)
        } else if skip || c == ' ' {
            (sum, true)
        } else {
            (sum + run_stones(c), false)
        }
    }
}

proof fn lemma_stones_scan_bound(s: Seq<char>, n: nat)
    requires
        n <= s.len(),
    ensures
        0 <= stones_scan(s, n).0 <= 8 * n,
    decreases n,
{
    if n > 0 {
        lemma_stones_scan_bound(s, (n - 1) as nat);
    }
}

/// The number of moves that led to an RFEN position from the four starting
/// stones: the stones on the board minus four.
pub fn countmoves(rfen: &str) -> (r: i32)
    requires
        rfen@.len() <= 0x0fff_ffff,
    ensures
        r == stones_scan(rfen@, rfen@.len()).0 - 4,
{
    let c = str_chars(rfen);
    let mut moves: i32 = -4;
    let mut skip = false;
    let mut i: usize = 0;
    while i < c.len()
        invariant
            i <= c@.len(),
            c@ == rfen@,
            c@.len() <= 0x0fff_ffff,
            (moves + 4, skip) == stones_scan(c@, i as nat),
        decreases c.len() - i,
    {
        proof {
            lemma_stones_scan_bound(c@, i as nat);
        }
        let ch = c[i];
        let u = ch as u32;
        if ch == '/' {
            skip = false;
        } else if skip || ch == ' ' {
            skip = true;
        } else if 65 <= u && u <= 72 {
            moves = moves + (u - 64) as i32;
        } else if 97 <= u && u <= 104 {
            moves = moves + (u - 96) as i32;
        }
        i = i + 1;
    }
    moves
}

/// The line that `extract` writes for a record whose first two moves are
/// `m1`, `m2` and whose third move was played in `rfen`.
pub open spec fn extract_line(m1: u8, m2: u8, rfen: Seq<char>) -> Seq<char> {
    "\""@ + rfen + "\", // "@ + pos_text(m1) + " "@ + pos_text(m2) + " "@ + dec_int(
        stones_scan(rfen, rfen.len()).0 - 4,
    )
}

/// Reads a game record from its lines and gives it with the line naming the
/// position of its third move: that position in quotes, then the first two
/// moves and the number of moves that led to it. `None` when a line has an
/// unreadable position field, the lines are empty, or the record holds fewer
/// than three moves.
pub fn extract(lines: &Vec<&str>) -> (r: Option<(Kifu, String)>)
    ensures
        r is None <==> (lines@.len() == 0 || (exists|i: int|
            0 <= i < lines@.len() && te_bad_position(#[trigger] lines@[i]@)) || kifu_moves(
            lines_view(lines@),
            lines@.len(),
        ).len() < 3 || kifu_moves(lines_view(lines@), lines@.len())[2].2.len() > 0x0fff_ffff),
        r matches Some((k, line)) ==> {
            let mv = kifu_moves(lines_view(lines@), lines@.len());
            &&& list_view(k.list@) == mv
            &&& k.score == Some(kifu_score(lines@.last()@))
            &&& line@ == extract_line(mv[0].0, mv[1].0, mv[2].2)
        },
{
    if lines.len() == 0 {
        return None;
    }
    let mut i: usize = 0;
    while i < lines.len()
        invariant
            i <= lines@.len(),
            forall|j: int| 0 <= j < i ==> !te_bad_position(#[trigger] lines@[j]@),
        decreases lines.len() - i,
    {
        if crate::kifu::Te::bad_position(lines[i]) {
            return None;
        }
        i = i + 1;
    }
    let kifu = Kifu::from(lines);
    if kifu.list.len() < 3 {
        return None;
    }
    let rfen = kifu.list[2].rfen.as_str();
    assert(list_view(kifu.list@)[2].2 == rfen@);
    if rfen.unicode_len() > 0x0fff_ffff {
        return None;
    }
    let n = countmoves(rfen);
    let mut v = str_chars("\"");
    push_chars(&mut v, &str_chars(rfen));
    push_chars(&mut v, &str_chars("\", // "));
    push_chars(&mut v, &str_chars(kifu.list[0].pos().as_str()));
    push_chars(&mut v, &str_chars(" "));
    push_chars(&mut v, &str_chars(kifu.list[1].pos().as_str()));
    push_chars(&mut v, &str_chars(" "));
    push_dec_i64(&mut v, n as i64);
    assert(list_view(kifu.list@)[0].0 == kifu.list@[0].xy);
    assert(list_view(kifu.list@)[1].0 == kifu.list@[1].xy);
    let line = chars_to_string(&v);
    Some((kifu, line))
}

} // verus!
