use vstd::prelude::*;
use crate::edaxrunner::{EdaxRunner, RuversiRunner};
use crate::text::{chars_to_string, fields, lemma_fields_nonempty, push_chars, split_on, str_chars};

verus! {

/// `c` in lower case when it is an ASCII capital, otherwise unchanged.
pub open spec fn lower(c: char) -> char {
    if 65 <= (c as u32) <= 90 {
        ((c as u32) + 32) as char
    } else {
        c
    }
}

/// Every ASCII capital of `s` in lower case.
pub open spec fn lower_seq(s: Seq<char>) -> Seq<char> {
    s.map_values(|c: char| lower(c))
}

fn lower_exec(c: char) -> (r: char)
    ensures
        r == lower(c),
{
    let u = c as u32;
    if 65 <= u && u <= 90 {
        match c {
            'A' => 'a',
            'B' => 'b',
            'C' => 'c',
            'D' => 'd',
            'E' => 'e',
            'F' => 'f',
            'G' => 'g',
            'H' => 'h',
            'I' => 'i',
            'J' => 'j',
            'K' => 'k',
            'L' => 'l',
            'M' => 'm',
            'N' => 'n',
            'O' => 'o',
            'P' => 'p',
            'Q' => 'q',
            'R' => 'r',
            'S' => 's',
            'T' => 't',
            'U' => 'u',
            'V' => 'v',
            'W' => 'w',
            'X' => 'x',
            'Y' => 'y',
            _ => 'z',
        }
    } else {
        c
    }
}

fn lower_chars(s: &Vec<char>) -> (r: Vec<char>)
    ensures
        r@ == lower_seq(s@),
{
    let mut r: Vec<char> = Vec::new();
    let mut i: usize = 0;
    while i < s.len()
        invariant
            i <= s.len(),
            r@ == lower_seq(s@.subrange(0, i as int)),
        decreases s.len() - i,
    {
        r.push(lower_exec(s[i]));
        assert(lower_seq(s@.subrange(0, i + 1)) == lower_seq(s@.subrange(0, i as int)).push(lower(s@[i as int])));
        i = i + 1;
    }
    assert(s@.subrange(0, s@.len() as int) == s@);
    r
}

/// Whether `char::is_alphabetic` holds of `c` (the Unicode `Alphabetic` property).
pub uninterp spec fn alphabetic(c: char) -> bool;

/// `char::is_alphabetic` from the standard library; the result is named by
/// `alphabetic`, the Unicode table behind it is not written out.
#[verifier::external_body]
fn is_alphabetic(c: char) -> (r: bool)
    ensures
        r == alphabetic(c),
{
    c.is_alphabetic()
}

/// The first alphabetic character of `s` at or after `i`.
pub open spec fn first_alpha_from(s: Seq<char>, i: int) -> Option<int>
    decreases s.len() - i,
{
    if i < 0 || i >= s.len() {
        None
    } else if alphabetic(s[i]) {
        Some(i)
    } else {
        first_alpha_from(s, i + 1)
    }
}

proof fn lemma_first_alpha_bounds(s: Seq<char>, j: int)
    ensures
        first_alpha_from(s, j) matches Some(i) ==> j <= i < s.len(),
    decreases s.len() - j,
{
    if 0 <= j < s.len() && !alphabetic(s[j]) {
        lemma_first_alpha_bounds(s, j + 1);
    }
}

fn first_alpha(s: &Vec<char>) -> (r: Option<usize>)
    ensures
        r is None ==> first_alpha_from(s@, 0) is None,
        r matches Some(k) ==> first_alpha_from(s@, 0) == Some(k as int) && k < s.len(),
{
    proof {
        lemma_first_alpha_bounds(s@, 0);
    }
    let mut i: usize = 0;
    while i < s.len()
        invariant
            i <= s.len(),
            first_alpha_from(s@, 0) == first_alpha_from(s@, i as int),
        decreases s.len() - i,
    {
        if is_alphabetic(s[i]) {
            assert(first_alpha_from(s@, i as int) == Some(i as int));
            return Some(i);
        }
        i = i + 1;
    }
    None
}

/// What the first group of `\s+([+-]\d\d)` captures in an Edax result line.
pub uninterp spec fn edax_score(line: Seq<char>) -> Option<Seq<char>>;

/// Matches `\s+([+-]\d\d)` in `line` with the `regex` crate and gives the
/// group; `\d` and `\s` being Unicode classes, the capture is named by
/// `edax_score` and not written out.
#[verifier::external_body]
fn capture_edax_score(line: &str) -> (r: Option<String>)
    ensures
        match edax_score(line@) {
            None => r is None,
            Some(t) => r matches Some(x) && x@ == t,
        },
{
    let re = regex::Regex::new("\\s+([+-]\\d\\d)").unwrap();
    re.captures(line).map(|c| c[1].to_string())
}

/// What the first group of `val:(-?\d+\.\d+) ` captures in a result line of
/// another instance of this program.
pub uninterp spec fn ruversi_val(line: Seq<char>) -> Option<Seq<char>>;

/// Matches `val:(-?\d+\.\d+) ` in `line` with the `regex` crate and gives the
/// group, named by `ruversi_val`.
#[verifier::external_body]
fn capture_ruversi_val(line: &str) -> (r: Option<String>)
    ensures
        match ruversi_val(line@) {
            None => r is None,
            Some(t) => r matches Some(x) && x@ == t,
        },
{
    let re = regex::Regex::new("val:(-?\\d+\\.\\d+) ").unwrap();
    re.captures(line).map(|c| c[1].to_string())
}

/// `nodes. ` starts at `i`, followed by a column letter and a row digit.
pub open spec fn nodes_at(s: Seq<char>, i: int) -> bool {
    let c = s[i + 7] as u32;
    let d = s[i + 8] as u32;
    0 <= i && i + 9 <= s.len() && s.subrange(i, i + 7) == "nodes. "@ && (65 <= c <= 72 || 97 <= c <= 104) && (49
        <= d <= 56)
}

/// The column letter and row digit after the first `nodes. ` at or after `i`
/// that is followed by them.
pub open spec fn nodes_from(s: Seq<char>, i: int) -> Option<Seq<char>>
    decreases s.len() - i,
{
    if i < 0 || i + 9 > s.len() {
        None
    } else if nodes_at(s, i) {
        Some(s.subrange(i + 7, i + 9))
    } else {
        nodes_from(s, i + 1)
    }
}

/// Matches `nodes\. ([A-Ha-h][1-8])` in `line` with the `regex` crate and
/// gives the group: the leftmost match, as the crate documents.
#[verifier::external_body]
fn capture_nodes(line: &str) -> (r: Option<String>)
    ensures
        match nodes_from(line@, 0) {
            None => r is None,
            Some(t) => r matches Some(x) && x@ == t,
        },
{
    let re = regex::Regex::new("nodes\\. ([A-Ha-h][1-8])").unwrap();
    re.captures(line).map(|c| c[1].to_string())
}

/// The texts of a result.
pub open spec fn answer_view(r: Result<(String, String), String>) -> Result<(Seq<char>, Seq<char>), Seq<char>> {
    match r {
        Ok((a, b)) => Ok((a@, b@)),
        Err(m) => Err(m@),
    }
}

/// What is made of Edax's output `txt` once the first alphabetic character
/// `pos` of its third line and the score `score` found there are known: the
/// move (column in lower case, row) and the score, or an error.
pub open spec fn edax_answer(txt: Seq<char>, pos: Option<int>, score: Option<Seq<char>>) -> Result<
    (Seq<char>, Seq<char>),
    Seq<char>,
> {
    let line = fields(txt, '\n')[2];
    match pos {
        None => Err("EDAX:\""@ + txt + "\""@),
        Some(i) => {
            let x = seq![lower(line[i]), line[i + 1]];
            match score {
                Some(sc) => Ok((x, sc)),
                None => Err("invalid input from edax. \""@ + line + "\" pos"@ + x),
            }
        },
    }
}

/// Edax's output cannot be read: it has fewer than three lines, or the first
/// alphabetic character of the third line ends it.
pub open spec fn edax_output_unreadable(txt: Seq<char>) -> bool {
    let f = fields(txt, '\n');
    f.len() < 3 || (first_alpha_from(f[2], 0) matches Some(i) && i + 1 >= f[2].len())
}

/// What is made of the output `txt` of another instance of this program once
/// the move `nodes` and the value `val` found in its thirteenth line (lower
/// case) are known.
pub open spec fn ruversi_answer(txt: Seq<char>, nodes: Option<Seq<char>>, val: Option<Seq<char>>) -> Result<
    (Seq<char>, Seq<char>),
    Seq<char>,
> {
    let f = fields(txt, '\n');
    let res = lower_seq(f[12]);
    match nodes {
        None => Err("invalid input from ruversi. \""@ + res + "\""@),
        Some(p) => match val {
            Some(v) => Ok((lower_seq(p), v)),
            None => Err("invalid input from ruversi. \""@ + f[2] + "\" pos"@ + lower_seq(p)),
        },
    }
}

fn quoted(a: &str, b: &Vec<char>, c: &str) -> (r: Vec<char>)
    ensures
        r@ == a@ + b@ + c@,
{
    let mut v = str_chars(a);
    push_chars(&mut v, b);
    push_chars(&mut v, &str_chars(c));
    v
}

impl EdaxRunner {
    /// The move and score read from Edax's output `txt`, given the first
    /// alphabetic character `pos` of its third line and the score `score`
    /// captured there.
    pub fn edax_answer_exec(txt: &str, pos: Option<usize>, score: Option<String>) -> (r: Result<
        (String, String),
        String,
    >)
        requires
            fields(txt@, '\n').len() >= 3,
            pos matches Some(i) ==> i + 1 < fields(txt@, '\n')[2].len(),
        ensures
            answer_view(r) == edax_answer(
                txt@,
                match pos {
                    Some(i) => Some(i as int),
                    None => None,
                },
                match score {
                    Some(s) => Some(s@),
                    None => None,
                },
            ),
    {
        let t = str_chars(txt);
        let lines = split_on(&t, '\n');
        assert(lines@[2]@ == fields(txt@, '\n')[2]);
        match pos {
            None => Err(chars_to_string(&quoted("EDAX:\"", &t, "\""))),
            Some(i) => {
                let line = &lines[2];
                let n = line.len();
                assert(i + 1 < n);
                let mut x: Vec<char> = Vec::new();
                x.push(lower_exec(line[i]));
                x.push(line[i + 1]);
                assert(x@ == seq![lower(line@[i as int]), line@[i + 1]]);
                match score {
                    Some(sc) => Ok((chars_to_string(&x), sc)),
                    None => {
                        let mut m = quoted("invalid input from edax. \"", line, "\" pos");
                        push_chars(&mut m, &x);
                        Err(chars_to_string(&m))
                    },
                }
            },
        }
    }

    /// The move and score read from Edax's output `txt`; `None` when the
    /// output cannot be read at all (see `edax_output_unreadable`).
    pub fn read_output(txt: &str) -> (r: Option<Result<(String, String), String>>)
        ensures
            r is None <==> edax_output_unreadable(txt@),
            r matches Some(a) ==> answer_view(a) == edax_answer(
                txt@,
                first_alpha_from(fields(txt@, '\n')[2], 0),
                edax_score(fields(txt@, '\n')[2]),
            ),
    {
        let t = str_chars(txt);
        let lines = split_on(&t, '\n');
        if lines.len() < 3 {
            return None;
        }
        let line = &lines[2];
        let n = line.len();
        assert(line@ == fields(txt@, '\n')[2]);
        let pos = first_alpha(line);
        match pos {
            None => Some(Self::edax_answer_exec(txt, None, None)),
            Some(i) => {
                if i + 1 >= n {
                    return None;
                }
                let ls = chars_to_string(line);
                let score = capture_edax_score(ls.as_str());
                Some(Self::edax_answer_exec(txt, Some(i), score))
            },
        }
    }
}

impl RuversiRunner {
    /// The move and value read from the output `txt` of another instance,
    /// given the move `nodes` and the value `val` captured in its thirteenth
    /// line (lower case).
    pub fn ruversi_answer_exec(txt: &str, nodes: Option<String>, val: Option<String>) -> (r: Result<
        (String, String),
        String,
    >)
        requires
            fields(txt@, '\n').len() >= 13,
        ensures
            answer_view(r) == ruversi_answer(
                txt@,
                match nodes {
                    Some(s) => Some(s@),
                    None => None,
                },
                match val {
                    Some(s) => Some(s@),
                    None => None,
                },
            ),
    {
        let t = str_chars(txt);
        let lines = split_on(&t, '\n');
        assert(lines@[12]@ == fields(txt@, '\n')[12]);
        assert(lines@[2]@ == fields(txt@, '\n')[2]);
        let res = lower_chars(&lines[12]);
        match nodes {
            None => Err(chars_to_string(&quoted("invalid input from ruversi. \"", &res, "\""))),
            Some(p) => {
                let x = lower_chars(&str_chars(p.as_str()));
                match val {
                    Some(v) => Ok((chars_to_string(&x), v)),
                    None => {
                        let mut m = quoted("invalid input from ruversi. \"", &lines[2], "\" pos");
                        push_chars(&mut m, &x);
                        Err(chars_to_string(&m))
                    },
                }
            },
        }
    }

    /// The thirteenth line of the output `txt` in lower case (what is shown
    /// when verbose) and the move and value read from it; `None` when the
    /// output has fewer than thirteen lines.
    pub fn read_output(txt: &str) -> (r: Option<(String, Result<(String, String), String>)>)
        ensures
            r is None <==> fields(txt@, '\n').len() < 13,
            r matches Some((res, a)) ==> res@ == lower_seq(fields(txt@, '\n')[12]) && answer_view(a)
                == ruversi_answer(
                txt@,
                nodes_from(lower_seq(fields(txt@, '\n')[12]), 0),
                ruversi_val(lower_seq(fields(txt@, '\n')[12])),
            ),
    {
        let t = str_chars(txt);
        let lines = split_on(&t, '\n');
        if lines.len() < 13 {
            return None;
        }
        assert(lines@[12]@ == fields(txt@, '\n')[12]);
        let res = chars_to_string(&lower_chars(&lines[12]));
        let nodes = capture_nodes(res.as_str());
        let val = capture_ruversi_val(res.as_str());
        let a = Self::ruversi_answer_exec(txt, nodes, val);
        Some((res, a))
    }
}

} // verus!
