use vstd::prelude::*;
use crate::bitboard::{GOTE, PASS, SENTE};
use crate::kifu::{
    col_letter, is_comment, is_pass_text, kifu_moves, kifu_score, kifu_text, moves_text, pos_text,
    posx_index, score_text, side_of, stone_text, te_bad_position, te_line, te_parse,
};
use crate::roundtrip::{lemma_words_single, no_ws};
use crate::text::{all_digits, dec, dec_int, digit_char, digits_value, fields, is_digit, is_ws, parse_i8, words};

verus! {

/// A space ends a word: it adds none.
proof fn lemma_words_space(p: Seq<char>)
    ensures
        words(p + seq![' ']) == words(p),
{
    let u = p + seq![' '];
    assert(u.drop_last() == p);
    assert(is_ws(u.last()));
}

/// A word after a space is one more word.
proof fn lemma_words_push(p: Seq<char>, w: Seq<char>)
    requires
        w.len() >= 1,
        no_ws(w),
    ensures
        words(p + seq![' '] + w) == words(p).push(w),
    decreases w.len(),
{
    lemma_words_space(p);
    let u = p + seq![' '] + w;
    if w.len() == 1 {
        assert(u.drop_last() == p + seq![' ']);
        assert(u[u.len() - 2] == ' ');
        assert(seq![w.last()] == w);
    } else {
        let v = w.drop_last();
        assert forall|k: int| 0 <= k < v.len() implies !is_ws(#[trigger] v[k]) by {
            assert(v[k] == w[k]);
        }
        lemma_words_push(p, v);
        assert(u.drop_last() == p + seq![' '] + v);
        assert(u[u.len() - 2] == w[w.len() - 2]);
        assert(v.push(w.last()) == w);
    }
}

/// The decimal text of a number is made of digits, at least one.
proof fn lemma_dec_digits(n: nat)
    ensures
        dec(n).len() >= 1,
        forall|k: int| 0 <= k < dec(n).len() ==> is_digit(#[trigger] dec(n)[k]),
    decreases n,
{
    if n >= 10 {
        lemma_dec_digits(n / 10);
        let d = dec(n);
        assert forall|k: int| 0 <= k < d.len() implies is_digit(#[trigger] d[k]) by {
            if k < d.len() - 1 {
                assert(d[k] == dec(n / 10)[k]);
            }
        }
    }
}

/// Reading back the record line of a move gives the move again: its
/// position (a pass, or a cell `x + 8 * y`), the side that moved, and the
/// position text, made of two words as RFEN is.
pub proof fn lemma_te_roundtrip(i: nat, xy: u8, teban: i8, board: Seq<char>, turn: Seq<char>)
    requires
        xy == PASS || xy < 64,
        teban == SENTE || teban == GOTE,
        board.len() >= 1,
        no_ws(board),
        turn.len() >= 1,
        no_ws(turn),
    ensures
        te_parse(te_line(i, xy, teban, board + seq![' '] + turn)) == Some((xy, teban, board + seq![' '] + turn)),
        !te_bad_position(te_line(i, xy, teban, board + seq![' '] + turn)),
{
    let rfen = board + seq![' '] + turn;
    let num = dec(i);
    let st = stone_text(teban);
    let pos = pos_text(xy);
    lemma_dec_digits(i);
    assert forall|k: int| 0 <= k < num.len() implies !is_ws(#[trigger] num[k]) by {
        assert(is_digit(num[k]));
    }
    lemma_words_single(num);
    assert(no_ws(st));
    if xy != PASS {
        lemma_dec_digits((xy / 8 + 1) as nat);
        assert(xy / 8 + 1 < 10);
        assert(dec((xy / 8 + 1) as nat) == seq![digit_char(xy / 8 + 1)]);
    }
    assert(pos.len() >= 1);
    assert(no_ws(pos));
    let a = num + seq![' '] + st;
    let b = a + seq![' '] + pos;
    let c = b + seq![' '] + board;
    let d = c + seq![' '] + turn;
    lemma_words_push(num, st);
    lemma_words_push(a, pos);
    lemma_words_push(b, board);
    lemma_words_push(c, turn);
    let line = te_line(i, xy, teban, rfen);
    assert(line == d + seq!['\n']);
    assert(line.drop_last() == d);
    assert(is_ws('\n'));
    let e = words(line);
    assert(e == seq![num, st, pos, board, turn]);
    assert(line[0] == num[0]);
    assert(!is_comment(line));
    assert(side_of(st) == Some(teban));
    if xy != PASS {
        let x = xy % 8;
        let y = xy / 8;
        assert(pos[0] == col_letter(x + 1));
        assert(posx_index(pos[0]) == Some(x + 1));
        assert(!is_pass_text(pos));
        assert((pos[1] as u32) - 48 == y + 1);
        assert(((x + 1) - 1 + (y + 1) * 8 - 8) == xy);
    }
}

/// The lines of a written record: each move line (with its newline), then
/// the result line.
pub open spec fn record_lines(list: Seq<(u8, i8, Seq<char>)>, score: Option<i8>) -> Seq<Seq<char>> {
    Seq::new(list.len(), |i: int| te_line((i + 1) as nat, list[i].0, list[i].1, list[i].2)).push(
        score_text(score),
    )
}

/// Two words with one space between them, as a position in RFEN is.
pub open spec fn two_words(s: Seq<char>) -> bool {
    exists|k: int|
        0 < k < s.len() - 1 && s[k] == ' ' && #[trigger] no_ws(s.subrange(0, k)) && no_ws(
            s.subrange(k + 1, s.len() as int),
        )
}

/// A move that a record line carries: a pass or a cell, played by black or
/// white, in a position written as two words.
pub open spec fn recordable(t: (u8, i8, Seq<char>)) -> bool {
    &&& t.0 == PASS || t.0 < 64
    &&& t.1 == SENTE || t.1 == GOTE
    &&& two_words(t.2)
}

proof fn lemma_te_line_reads(i: nat, t: (u8, i8, Seq<char>))
    requires
        recordable(t),
    ensures
        te_parse(te_line(i, t.0, t.1, t.2)) == Some(t),
        !te_bad_position(te_line(i, t.0, t.1, t.2)),
{
    let s = t.2;
    let k = choose|k: int|
        0 < k < s.len() - 1 && s[k] == ' ' && #[trigger] no_ws(s.subrange(0, k)) && no_ws(
            s.subrange(k + 1, s.len() as int),
        );
    let b = s.subrange(0, k);
    let w = s.subrange(k + 1, s.len() as int);
    assert(s =~= b + seq![' '] + w);
    lemma_te_roundtrip(i, t.0, t.1, b, w);
}

proof fn lemma_record_moves(list: Seq<(u8, i8, Seq<char>)>, score: Option<i8>, k: nat)
    requires
        k <= list.len(),
        forall|i: int| 0 <= i < list.len() ==> recordable(#[trigger] list[i]),
    ensures
        kifu_moves(record_lines(list, score), k) == list.subrange(0, k as int),
    decreases k,
{
    if k > 0 {
        lemma_record_moves(list, score, (k - 1) as nat);
        let t = list[k - 1];
        assert(record_lines(list, score)[k - 1] == te_line(k, t.0, t.1, t.2));
        lemma_te_line_reads(k, t);
        assert(list.subrange(0, k as int) =~= list.subrange(0, k - 1).push(t));
    }
}

proof fn lemma_record_text(list: Seq<(u8, i8, Seq<char>)>, k: nat)
    requires
        k <= list.len(),
    ensures
        Seq::new(k, |i: int| te_line((i + 1) as nat, list[i].0, list[i].1, list[i].2)).flatten()
            == moves_text(list, k),
    decreases k,
{
    let lines = Seq::new(k, |i: int| te_line((i + 1) as nat, list[i].0, list[i].1, list[i].2));
    if k == 0 {
        assert(lines.len() == 0);
    } else {
        lemma_record_text(list, (k - 1) as nat);
        let prev = Seq::new((k - 1) as nat, |i: int| te_line((i + 1) as nat, list[i].0, list[i].1, list[i].2));
        assert(lines =~= prev.push(lines[k - 1]));
        prev.lemma_flatten_push(lines[k - 1]);
    }
}

/// The decimal text of a number reads back as that number.
proof fn lemma_dec_value(n: nat)
    ensures
        digits_value(dec(n)) == n,
        all_digits(dec(n)),
    decreases n,
{
    lemma_dec_digits(n);
    let d = dec(n);
    if n >= 10 {
        lemma_dec_value(n / 10);
        assert(d.drop_last() == dec(n / 10));
        assert((d.last() as u32) - 48 == n % 10);
        assert(digits_value(d) == digits_value(dec(n / 10)) * 10 + n % 10);
        assert((n / 10) * 10 + n % 10 == n);
        assert(digits_value(d) == n);
    } else {
        assert(d.drop_last() =~= Seq::<char>::empty());
        assert(digits_value(d.drop_last()) == 0);
        assert((d.last() as u32) - 48 == n);
        assert(digits_value(d) == n);
    }
}

/// The last piece of `p` followed by `w` is `w`, when `p` is empty or ends
/// with the separator and `w` holds none.
proof fn lemma_fields_last(p: Seq<char>, w: Seq<char>, sep: char)
    requires
        p.len() == 0 || p.last() == sep,
        forall|i: int| 0 <= i < w.len() ==> w[i] != sep,
    ensures
        fields(p + w, sep).last() == w,
    decreases w.len(),
{
    if w.len() == 0 {
        assert(p + w =~= p);
        if p.len() > 0 {
            crate::text::lemma_fields_nonempty(p.drop_last(), sep);
        }
    } else {
        let v = w.drop_last();
        lemma_fields_last(p, v, sep);
        assert((p + w).drop_last() =~= p + v);
        crate::text::lemma_fields_nonempty(p + v, sep);
        assert(v.push(w.last()) =~= w);
    }
}

/// The result line is not read as a move, and its last word gives back the
/// score (0 while the game goes on).
proof fn lemma_score_line(score: Option<i8>)
    ensures
        te_parse(score_text(score)) is None,
        !te_bad_position(score_text(score)),
        kifu_score(score_text(score)) == (match score {
            Some(s) => s,
            None => 0i8,
        }),
{
    reveal_strlit("on going...");
    reveal_strlit("GOTE won. ");
    reveal_strlit("SENTE won. ");
    reveal_strlit("DRAW.");
    let line = score_text(score);
    match score {
        None => {
            let a = seq!['o', 'n'];
            let b = seq!['g', 'o', 'i', 'n', 'g', '.', '.', '.'];
            assert(line =~= a + seq![' '] + b);
            lemma_words_single(a);
            lemma_words_push(a, b);
            assert(words(line).len() == 2);
            lemma_fields_last(a + seq![' '], b, ' ');
            assert(line =~= (a + seq![' ']) + b);
            assert(!is_digit(b[0]));
        },
        Some(s) => {
            if s == 0 {
                let a = seq!['D', 'R', 'A', 'W', '.'];
                assert(line =~= a);
                lemma_words_single(a);
                lemma_fields_last(Seq::empty(), a, ' ');
                assert(Seq::<char>::empty() + a =~= a);
                assert(!is_digit(a[0]));
            } else {
                let head = if s < 0 {
                    seq!['G', 'O', 'T', 'E']
                } else {
                    seq!['S', 'E', 'N', 'T', 'E']
                };
                let won = seq!['w', 'o', 'n', '.'];
                let d = dec_int(s as int);
                let n: nat = if s < 0 {
                    (-s) as nat
                } else {
                    s as nat
                };
                lemma_dec_value(n);
                lemma_dec_digits(n);
                assert(no_ws(d)) by {
                    assert forall|k: int| 0 <= k < d.len() implies !is_ws(#[trigger] d[k]) by {
                        if s < 0 && k == 0 {
                            assert(d[k] == '-');
                        } else if s < 0 {
                            assert(d[k] == dec(n)[k - 1]);
                            assert(is_digit(dec(n)[k - 1]));
                        } else {
                            assert(is_digit(dec(n)[k]));
                        }
                    }
                }
                assert(line =~= head + seq![' '] + won + seq![' '] + d);
                lemma_words_single(head);
                lemma_words_push(head, won);
                lemma_words_push(head + seq![' '] + won, d);
                assert(words(line).len() == 3);
                assert forall|k: int| 0 <= k < d.len() implies d[k] != ' ' by {
                    assert(!is_ws(d[k]));
                }
                lemma_fields_last(head + seq![' '] + won + seq![' '], d, ' ');
                assert(line =~= (head + seq![' '] + won + seq![' ']) + d);
                assert(fields(line, ' ').last() == d);
                if s < 0 {
                    assert(d.drop_first() =~= dec(n));
                } else {
                    assert(d == dec(n));
                    assert(is_digit(d[0]));
                }
            }
        },
    }
}

/// Reading the lines of a written record gives back its moves and its score
/// (0 while the game goes on), and no line stops the reading; the lines put
/// together are the written text.
pub proof fn lemma_kifu_roundtrip(list: Seq<(u8, i8, Seq<char>)>, score: Option<i8>)
    requires
        forall|i: int| 0 <= i < list.len() ==> recordable(#[trigger] list[i]),
    ensures
        record_lines(list, score).flatten() == kifu_text(list, score),
        forall|i: int|
            0 <= i < record_lines(list, score).len() ==> !te_bad_position(
                #[trigger] record_lines(list, score)[i],
            ),
        kifu_moves(record_lines(list, score), record_lines(list, score).len()) == list,
        kifu_score(record_lines(list, score).last()) == (match score {
            Some(s) => s,
            None => 0i8,
        }),
{
    let lines = record_lines(list, score);
    let moves = Seq::new(list.len(), |i: int| te_line((i + 1) as nat, list[i].0, list[i].1, list[i].2));
    lemma_record_text(list, list.len());
    moves.lemma_flatten_push(score_text(score));
    lemma_record_moves(list, score, list.len());
    lemma_score_line(score);
    assert(list.subrange(0, list.len() as int) =~= list);
    assert forall|i: int| 0 <= i < lines.len() implies !te_bad_position(#[trigger] lines[i]) by {
        if i < list.len() {
            lemma_te_line_reads((i + 1) as nat, list[i]);
        }
    }
}

} // verus!
