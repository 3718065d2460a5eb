use vstd::prelude::*;
use crate::bits::bit;
use crate::edaxrunner::strings_view;
use crate::bitboard::BitBoard;
use crate::initialpos::{tag_index, InitialPos};
use crate::kifu::{col_letter, postxt};
use crate::notation::{rfen_off_board, rfen_parse, rfen_text};
use crate::text::{chars_to_string, dec, push_chars, str_chars, str_string};

verus! {

/// The text of a move as `postxt` writes it: column letter and row, or `PASS`.
pub open spec fn move_text(m: (u8, u8)) -> Seq<char> {
    if 1 <= m.0 <= 8 && 1 <= m.1 <= 8 {
        seq![col_letter(m.0 as int)] + dec(m.1 as nat)
    } else {
        "PASS"@
    }
}

/// The moves tried from `b`: its legal moves, or a single pass `(0, 0)` when
/// it has none; `None` when the board is full and nothing can be played.
pub open spec fn tried_moves(b: BitBoard) -> Option<Seq<(u8, u8)>> {
    if b.legal_moves().len() == 0 {
        if b.full() {
            None
        } else {
            Some(seq![(0u8, 0u8)])
        }
    } else {
        Some(b.legal_moves())
    }
}

/// The position after the move `m` (`(0, 0)` being a pass).
pub open spec fn played(b: BitBoard, m: (u8, u8)) -> BitBoard {
    if m.0 == 0 && m.1 == 0 {
        b.after_pass()
    } else {
        b.after_move(m.0 - 1, m.1 - 1)
    }
}

/// One output line: the position reached, then the two moves that led there.
pub open spec fn opening_line(b: BitBoard, m1: (u8, u8), m2: (u8, u8)) -> Seq<char> {
    rfen_text(b) + ",  // ****** "@ + move_text(m1) + " "@ + move_text(m2)
}

/// The lines for the first `n` of the replies `ms` to the move `m1`, which led to `b2`.
pub open spec fn reply_lines(b2: BitBoard, m1: (u8, u8), ms: Seq<(u8, u8)>, n: nat) -> Seq<Seq<char>>
    decreases n,
{
    if n == 0 {
        Seq::empty()
    } else {
        reply_lines(b2, m1, ms, (n - 1) as nat).push(
            opening_line(played(b2, ms[n - 1]), m1, ms[n - 1]),
        )
    }
}

/// The lines for every reply to the move `m1`, which led to `b2`.
pub open spec fn replies(b2: BitBoard, m1: (u8, u8)) -> Seq<Seq<char>> {
    match tried_moves(b2) {
        None => Seq::empty(),
        Some(ms) => reply_lines(b2, m1, ms, ms.len()),
    }
}

/// The lines for the first `n` of the moves `ms` from `b`.
pub open spec fn first_lines(b: BitBoard, ms: Seq<(u8, u8)>, n: nat) -> Seq<Seq<char>>
    decreases n,
{
    if n == 0 {
        Seq::empty()
    } else {
        first_lines(b, ms, (n - 1) as nat) + replies(played(b, ms[n - 1]), ms[n - 1])
    }
}

/// Every position two moves (or passes) after `b`, one line each, in the
/// order of the first move and then of the reply.
pub open spec fn two_move_lines(b: BitBoard) -> Seq<Seq<char>> {
    match tried_moves(b) {
        None => Seq::empty(),
        Some(ms) => first_lines(b, ms, ms.len()),
    }
}

/// Each legal move is on the board, on an empty cell.
proof fn lemma_moves_on_board(b: BitBoard, k: nat)
    requires
        k <= 64,
    ensures
        forall|i: int|
            0 <= i < b.moves_upto(k).len() ==> {
                let m = #[trigger] b.moves_upto(k)[i];
                &&& 1 <= m.0 <= 8
                &&& 1 <= m.1 <= 8
                &&& !bit(b.stones(), (m.0 - 1) * 8 + (m.1 - 1))
            },
    decreases k,
{
    if k > 0 {
        lemma_moves_on_board(b, (k - 1) as nat);
        let j = k - 1;
        let x = j % 8;
        let y = j / 8;
        assert(0 <= x < 8 && 0 <= y < 8);
        let prev = b.moves_upto((k - 1) as nat);
        let m = ((x + 1) as u8, (y + 1) as u8);
        assert(m.0 - 1 == x && m.1 - 1 == y);
        if b.legal_cell(x * 8 + y) {
            assert(b.moves_upto(k) == prev.push(m));
        } else {
            assert(b.moves_upto(k) == prev);
        }
    }
}

/// The moves tried from `b`, as `tried_moves` gives them.
fn tried_moves_exec(b: &BitBoard) -> (r: Option<Vec<(u8, u8)>>)
    ensures
        tried_moves(*b) is None ==> r is None,
        tried_moves(*b) matches Some(ms) ==> (r matches Some(v) && v@ == ms),
{
    match b.genmove() {
        None => None,
        Some(mut v) => {
            if v.len() == 0 {
                v.push((0u8, 0u8));
                assert(v@ == seq![(0u8, 0u8)]);
            }
            Some(v)
        },
    }
}

/// Plays a move that `tried_moves` offers.
fn play_tried(b: &BitBoard, m: (u8, u8)) -> (r: BitBoard)
    requires
        b.teban != i8::MIN,
        m.0 == 0 && m.1 == 0 ==> b.pass < i8::MAX,
        !(m.0 == 0 && m.1 == 0) ==> 1 <= m.0 <= 8 && 1 <= m.1 <= 8 && !bit(
            b.stones(),
            (m.0 - 1) * 8 + (m.1 - 1),
        ),
    ensures
        r == played(*b, m),
{
    match b.make_move(m.0, m.1) {
        Ok(nb) => nb,
        Err(_) => {
            assert(false);
            b.clone()
        },
    }
}

/// The output line for position `b` reached by `m1` then `m2`.
fn opening_line_exec(b: &BitBoard, m1: (u8, u8), m2: (u8, u8)) -> (r: String)
    ensures
        r@ == opening_line(*b, m1, m2),
{
    let mut v = str_chars(b.to_str().as_str());
    push_chars(&mut v, &str_chars(",  // ****** "));
    push_chars(&mut v, &str_chars(postxt(m1.0, m1.1).as_str()));
    push_chars(&mut v, &str_chars(" "));
    push_chars(&mut v, &str_chars(postxt(m2.0, m2.1).as_str()));
    chars_to_string(&v)
}

/// Adds the lines for every reply to `m1`, which led to `b2`.
fn push_replies(out: &mut Vec<String>, b2: &BitBoard, m1: (u8, u8))
    requires
        b2.teban != i8::MIN,
        b2.pass < i8::MAX,
    ensures
        strings_view(final(out)@) == strings_view(old(out)@) + replies(*b2, m1),
{
    let ghost start = strings_view(out@);
    if let Some(ms) = tried_moves_exec(b2) {
        let mut j: usize = 0;
        while j < ms.len()
            invariant
                j <= ms@.len(),
                b2.teban != i8::MIN,
                b2.pass < i8::MAX,
                tried_moves(*b2) == Some(ms@),
                ms@ == seq![(0u8, 0u8)] || ms@ == b2.legal_moves(),
                strings_view(out@) == start + reply_lines(*b2, m1, ms@, j as nat),
            decreases ms@.len() - j,
        {
            let m2 = ms[j];
            proof {
                lemma_moves_on_board(*b2, 64);
                assert(ms@ == b2.legal_moves() ==> ms@[j as int] == b2.moves_upto(64)[j as int]);
            }
            let b3 = play_tried(b2, m2);
            let line = opening_line_exec(&b3, m1, m2);
            let ghost before = out@;
            out.push(line);
            assert(strings_view(out@) =~= strings_view(before).push(line@));
            assert(strings_view(out@) =~= start + reply_lines(*b2, m1, ms@, (j + 1) as nat));
            j = j + 1;
        }
    } else {
        assert(strings_view(out@) == start + replies(*b2, m1));
    }
}

/// Every position two moves (or passes) after `ban`, as `two_move_lines` gives them.
pub fn two_moves_ahead(ban: &BitBoard) -> (r: Vec<String>)
    requires
        ban.teban != i8::MIN,
        ban.pass < i8::MAX - 1,
    ensures
        strings_view(r@) == two_move_lines(*ban),
{
    let mut out: Vec<String> = Vec::new();
    if let Some(ms) = tried_moves_exec(ban) {
        let mut i: usize = 0;
        while i < ms.len()
            invariant
                i <= ms@.len(),
                ban.teban != i8::MIN,
                ban.pass < i8::MAX - 1,
                tried_moves(*ban) == Some(ms@),
                ms@ == seq![(0u8, 0u8)] || ms@ == ban.legal_moves(),
                strings_view(out@) == first_lines(*ban, ms@, i as nat),
            decreases ms@.len() - i,
        {
            let m1 = ms[i];
            proof {
                lemma_moves_on_board(*ban, 64);
                assert(ms@ == ban.legal_moves() ==> ms@[i as int] == ban.moves_upto(64)[i as int]);
            }
            let b2 = play_tried(ban, m1);
            push_replies(&mut out, &b2, m1);
            i = i + 1;
        }
    }
    out
}

/// What the first `n` positions of `rfens` give: the lines so far, the error
/// that stopped the run, and whether a position ran off the board.
pub open spec fn lines_from(rfens: Seq<Seq<char>>, n: nat) -> (Seq<Seq<char>>, Option<Seq<char>>, bool)
    decreases n,
{
    if n == 0 {
        (Seq::empty(), None, false)
    } else {
        let p = lines_from(rfens, (n - 1) as nat);
        let s = rfens[n - 1];
        if p.1 is Some || p.2 {
            p
        } else if rfen_off_board(s) {
            (p.0, None, true)
        } else {
            match rfen_parse(s) {
                Ok(b) => (p.0 + two_move_lines(b), None, false),
                Err(_) => (p.0, Some("error: reading rfen \""@ + s + "\"."@), false),
            }
        }
    }
}

/// Once a run has stopped, later positions change nothing.
proof fn lemma_stopped_stays(rfens: Seq<Seq<char>>, n: nat, m: nat)
    requires
        n <= m,
        lines_from(rfens, n).1 is Some || lines_from(rfens, n).2,
    ensures
        lines_from(rfens, m) == lines_from(rfens, n),
    decreases m - n,
{
    if n < m {
        lemma_stopped_stays(rfens, n, (m - 1) as nat);
    }
}

/// What `geninitpos` gives for the positions file read as `file` from `path`
/// and the tag `tag`.
pub open spec fn initpos_lines(
    file: Result<Seq<(Seq<char>, Seq<Seq<char>>)>, Seq<char>>,
    path: Seq<char>,
    tag: Seq<char>,
) -> (Seq<Seq<char>>, Option<Seq<char>>, bool) {
    if tag.len() == 0 {
        (Seq::empty(), Some("error: tag is empty."@), false)
    } else {
        match file {
            Err(_) => (Seq::empty(), Some("error: failed to read "@ + path + "."@), false),
            Ok(l) => if tag_index(l, tag) < 0 {
                (Seq::empty(), Some("error: failed to find tag:"@ + tag + "."@), false)
            } else {
                let rfens = l[tag_index(l, tag)].1;
                lines_from(rfens, rfens.len())
            },
        }
    }
}

/// The view of a positions file as read.
pub open spec fn file_view(file: Result<InitialPos, String>) -> Result<Seq<(Seq<char>, Seq<Seq<char>>)>, Seq<char>> {
    match file {
        Ok(ip) => Ok(ip@),
        Err(e) => Err(e@),
    }
}

/// Lists every position two moves (or passes) after each position filed
/// under `tag` in the positions file `file`, read from `path`. Gives the
/// lines and then `Ok`, or the lines made before an error and the error.
/// `None` when a position runs a stone off the board.
pub fn geninitpos(file: &Result<InitialPos, String>, path: &str, tag: &str) -> (r: Option<(Vec<String>, Result<(), String>)>)
    ensures
        r is None <==> initpos_lines(file_view(*file), path@, tag@).2,
        r matches Some((lines, res)) ==> {
            &&& strings_view(lines@) == initpos_lines(file_view(*file), path@, tag@).0
            &&& match initpos_lines(file_view(*file), path@, tag@).1 {
                None => res is Ok,
                Some(m) => res matches Err(e) && e@ == m,
            }
        },
{
    let mut out: Vec<String> = Vec::new();
    if tag.unicode_len() == 0 {
        return Some((out, Err(str_string("error: tag is empty."))));
    }
    let ipos = match file {
        Err(_) => {
            let mut m = str_chars("error: failed to read ");
            push_chars(&mut m, &str_chars(path));
            push_chars(&mut m, &str_chars("."));
            return Some((out, Err(chars_to_string(&m))));
        },
        Ok(ip) => ip,
    };
    let set = match ipos.at(tag) {
        None => {
            let mut m = str_chars("error: failed to find tag:");
            push_chars(&mut m, &str_chars(tag));
            push_chars(&mut m, &str_chars("."));
            return Some((out, Err(chars_to_string(&m))));
        },
        Some(s) => s,
    };
    let ghost rfens = set@.1;
    assert(initpos_lines(file_view(*file), path@, tag@) == lines_from(rfens, rfens.len()));
    let mut i: usize = 0;
    while i < set.rfens.len()
        invariant
            i <= set.rfens@.len(),
            initpos_lines(file_view(*file), path@, tag@) == lines_from(rfens, rfens.len()),
            rfens == strings_view(set.rfens@),
            rfens.len() == set.rfens@.len(),
            lines_from(rfens, i as nat) == (strings_view(out@), None::<Seq<char>>, false),
        decreases set.rfens@.len() - i,
    {
        let rfen = set.rfens[i].as_str();
        assert(rfens[i as int] == rfen@);
        match BitBoard::read_rfen(rfen) {
            None => {
                proof {
                    lemma_stopped_stays(rfens, (i + 1) as nat, rfens.len());
                }
                return None;
            },
            Some(Err(_)) => {
                let mut m = str_chars("error: reading rfen \"");
                push_chars(&mut m, &str_chars(rfen));
                push_chars(&mut m, &str_chars("\"."));
                proof {
                    lemma_stopped_stays(rfens, (i + 1) as nat, rfens.len());
                }
                return Some((out, Err(chars_to_string(&m))));
            },
            Some(Ok(ban)) => {
                let more = two_moves_ahead(&ban);
                let ghost before = strings_view(out@);
                let mut k: usize = 0;
                while k < more.len()
                    invariant
                        k <= more@.len(),
                        strings_view(out@) == before + strings_view(more@).subrange(0, k as int),
                    decreases more@.len() - k,
                {
                    let ghost prev = out@;
                    let line = str_string(more[k].as_str());
                    assert(line@ == strings_view(more@)[k as int]);
                    out.push(line);
                    assert(strings_view(out@) =~= strings_view(prev).push(line@));
                    assert(strings_view(more@).subrange(0, k + 1) =~= strings_view(more@).subrange(0, k as int).push(line@));
                    assert(strings_view(out@) =~= before + strings_view(more@).subrange(0, k + 1));
                    k = k + 1;
                }
                assert(strings_view(more@).subrange(0, more@.len() as int) =~= strings_view(more@));
            },
        }
        i = i + 1;
    }
    assert(rfens.len() == i);
    Some((out, Ok(())))
}

} // verus!
