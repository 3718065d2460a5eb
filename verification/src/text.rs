use vstd::prelude::*;

verus! {

/// The characters with the Unicode `White_Space` property, which is what
/// `char::is_whitespace` tests.
pub open spec fn is_ws(c: char) -> bool {
    let u = c as u32;
    (0x09 <= u && u <= 0x0d) || u == 0x20 || u == 0x85 || u == 0xa0 || u == 0x1680 || (0x2000 <= u
        && u <= 0x200a) || u == 0x2028 || u == 0x2029 || u == 0x202f || u == 0x205f || u == 0x3000
}

pub fn is_ws_exec(c: char) -> (r: bool)
    ensures
        r == is_ws(c),
{
    let u = c as u32;
    (0x09 <= u && u <= 0x0d) || u == 0x20 || u == 0x85 || u == 0xa0 || u == 0x1680 || (0x2000 <= u
        && u <= 0x200a) || u == 0x2028 || u == 0x2029 || u == 0x202f || u == 0x205f || u == 0x3000
}

/// The maximal runs of non-whitespace characters of `s`, in order
/// (what `str::split_whitespace` yields).
pub open spec fn words(s: Seq<char>) -> Seq<Seq<char>>
    decreases s.len(),
{
    if s.len() == 0 {
        Seq::empty()
    } else {
        let w = words(s.drop_last());
        let c = s.last();
        if is_ws(c) {
            w
        } else if s.len() >= 2 && !is_ws(s[s.len() - 2]) {
            w.update(w.len() - 1, w.last().push(c))
        } else {
            w.push(seq![c])
        }
    }
}

/// The pieces of `s` between the occurrences of `sep`, empty pieces included
/// (what `str::split` with a one-character pattern yields).
pub open spec fn fields(s: Seq<char>, sep: char) -> Seq<Seq<char>>
    decreases s.len(),
{
    if s.len() == 0 {
        seq![Seq::<char>::empty()]
    } else {
        let w = fields(s.drop_last(), sep);
        let c = s.last();
        if c == sep {
            w.push(Seq::empty())
        } else {
            w.update(w.len() - 1, w.last().push(c))
        }
    }
}

pub proof fn lemma_fields_nonempty(s: Seq<char>, sep: char)
    ensures
        fields(s, sep).len() >= 1,
    decreases s.len(),
{
    if s.len() > 0 {
        lemma_fields_nonempty(s.drop_last(), sep);
    }
}

pub proof fn lemma_words_nonempty(s: Seq<char>)
    ensures
        s.len() > 0 && !is_ws(s.last()) ==> words(s).len() >= 1,
        forall|i: int| 0 <= i < words(s).len() ==> #[trigger] words(s)[i].len() >= 1,
    decreases s.len(),
{
    if s.len() > 0 {
        lemma_words_nonempty(s.drop_last());
        let w = words(s.drop_last());
        if s.len() >= 2 && !is_ws(s[s.len() - 2]) {
            assert(s.drop_last().last() == s[s.len() - 2]);
        }
    }
}

/// The characters of a string slice.
pub fn str_chars(s: &str) -> (v: Vec<char>)
    ensures
        v@ == s@,
{
    let n = s.unicode_len();
    let mut v: Vec<char> = Vec::new();
    let mut i: usize = 0;
    while i < n
        invariant
            i <= n,
            n == s@.len(),
            v@ == s@.subrange(0, i as int),
        decreases n - i,
    {
        v.push(s.get_char(i));
        i = i + 1;
    }
    assert(v@ == s@);
    v
}

/// A string made of the given characters.
#[verifier::external_body]
pub(crate) fn chars_to_string(v: &Vec<char>) -> (s: String)
    ensures
        s@ == v@,
{
    String::from_iter(v.iter())
}

/// Appends the characters of `w` to `v`.
pub fn push_chars(v: &mut Vec<char>, w: &Vec<char>)
    ensures
        final(v)@ == old(v)@ + w@,
{
    let mut i: usize = 0;
    while i < w.len()
        invariant
            i <= w.len(),
            v@ == old(v)@ + w@.subrange(0, i as int),
        decreases w.len() - i,
    {
        v.push(w[i]);
        i = i + 1;
    }
    assert(w@.subrange(0, w@.len() as int) == w@);
}

/// Splits `s` at its whitespace runs.
pub fn split_ws(s: &Vec<char>) -> (r: Vec<Vec<char>>)
    ensures
        r@.len() == words(s@).len(),
        forall|i: int| 0 <= i < r@.len() ==> #[trigger] r@[i]@ == words(s@)[i],
{
    let mut r: Vec<Vec<char>> = Vec::new();
    let mut cur: Vec<char> = Vec::new();
    let mut i: usize = 0;
    while i < s.len()
        invariant
            i <= s.len(),
            ({
                let w = words(s@.subrange(0, i as int));
                &&& (cur@.len() == 0) ==> (w.len() == r@.len() && forall|j: int|
                    0 <= j < r@.len() ==> #[trigger] r@[j]@ == w[j])
                &&& (cur@.len() > 0) ==> (w.len() == r@.len() + 1 && w.last() == cur@
                    && forall|j: int| 0 <= j < r@.len() ==> #[trigger] r@[j]@ == w[j])
                &&& (cur@.len() > 0) <==> (i > 0 && !is_ws(s@[i - 1]))
            }),
        decreases s.len() - i,
    {
        let c = s[i];
        let ghost pre = s@.subrange(0, i as int);
        let ghost nxt = s@.subrange(0, i + 1);
        assert(nxt.drop_last() == pre);
        assert(nxt.last() == c);
        if i > 0 {
            assert(nxt[nxt.len() - 2] == s@[i - 1]);
        }
        if is_ws_exec(c) {
            if cur.len() > 0 {
                r.push(cur);
                cur = Vec::new();
            }
        } else {
            cur.push(c);
        }
        i = i + 1;
    }
    assert(s@.subrange(0, s@.len() as int) == s@);
    if cur.len() > 0 {
        r.push(cur);
    }
    r
}

/// Splits `s` at each occurrence of `sep`.
pub fn split_on(s: &Vec<char>, sep: char) -> (r: Vec<Vec<char>>)
    ensures
        r@.len() == fields(s@, sep).len(),
        forall|i: int| 0 <= i < r@.len() ==> #[trigger] r@[i]@ == fields(s@, sep)[i],
{
    let mut r: Vec<Vec<char>> = Vec::new();
    let mut cur: Vec<char> = Vec::new();
    let mut i: usize = 0;
    while i < s.len()
        invariant
            i <= s.len(),
            ({
                let w = fields(s@.subrange(0, i as int), sep);
                &&& w.len() == r@.len() + 1
                &&& w.last() == cur@
                &&& forall|j: int| 0 <= j < r@.len() ==> #[trigger] r@[j]@ == w[j]
            }),
        decreases s.len() - i,
    {
        let c = s[i];
        let ghost pre = s@.subrange(0, i as int);
        let ghost nxt = s@.subrange(0, i + 1);
        assert(nxt.drop_last() == pre);
        assert(nxt.last() == c);
        proof {
            lemma_fields_nonempty(pre, sep);
        }
        if c == sep {
            r.push(cur);
            cur = Vec::new();
        } else {
            cur.push(c);
        }
        i = i + 1;
    }
    assert(s@.subrange(0, s@.len() as int) == s@);
    r.push(cur);
    r
}

/// A text without the separator is a single piece.
pub proof fn lemma_fields_no_sep(s: Seq<char>, sep: char)
    requires
        forall|i: int| 0 <= i < s.len() ==> s[i] != sep,
    ensures
        fields(s, sep) == seq![s],
    decreases s.len(),
{
    if s.len() > 0 {
        lemma_fields_no_sep(s.drop_last(), sep);
        let w = fields(s.drop_last(), sep);
        assert(s.drop_last().push(s.last()) == s);
        assert(w.update(w.len() - 1, w.last().push(s.last())) =~= seq![s]);
    } else {
        assert(s =~= Seq::<char>::empty());
    }
}

/// Splitting a text made of two separator-free pieces joined by the separator.
pub proof fn lemma_fields_two(a: Seq<char>, b: Seq<char>, sep: char)
    requires
        forall|i: int| 0 <= i < a.len() ==> a[i] != sep,
        forall|i: int| 0 <= i < b.len() ==> b[i] != sep,
    ensures
        fields(a + seq![sep] + b, sep) == seq![a, b],
    decreases b.len(),
{
    let s = a + seq![sep] + b;
    if b.len() == 0 {
        lemma_fields_no_sep(a, sep);
        assert(s.drop_last() =~= a);
        assert(s.last() == sep);
        assert(b =~= Seq::<char>::empty());
        assert(fields(a, sep).push(Seq::<char>::empty()) =~= seq![a, b]);
    } else {
        lemma_fields_two(a, b.drop_last(), sep);
        assert(s.drop_last() =~= a + seq![sep] + b.drop_last());
        assert(s.last() == b.last());
        let w = fields(s.drop_last(), sep);
        assert(b.drop_last().push(b.last()) =~= b);
        assert(w.update(w.len() - 1, w.last().push(s.last())) =~= seq![a, b]);
    }
}

/// The decimal digit character of `d` (`0..10`).
pub open spec fn digit_char(d: int) -> char {
    ((48 + d) as u32) as char
}

/// The decimal text of `n`, without leading zeros.
pub open spec fn dec(n: nat) -> Seq<char>
    decreases n,
{
    if n < 10 {
        seq![digit_char(n as int)]
    } else {
        dec(n / 10).push(digit_char((n % 10) as int))
    }
}

/// The decimal text of `v`, with a `-` in front when it is negative.
pub open spec fn dec_int(v: int) -> Seq<char> {
    if v < 0 {
        seq!['-'] + dec((-v) as nat)
    } else {
        dec(v as nat)
    }
}

fn digit_char_exec(d: u64) -> (c: char)
    requires
        d < 10,
    ensures
        c == digit_char(d as int),
{
    match d {
        0 => '0',
        1 => '1',
        2 => '2',
        3 => '3',
        4 => '4',
        5 => '5',
        6 => '6',
        7 => '7',
        8 => '8',
        _ => '9',
    }
}

/// Appends the decimal text of `n`.
pub fn push_dec(v: &mut Vec<char>, n: u64)
    ensures
        final(v)@ == old(v)@ + dec(n as nat),
    decreases n,
{
    if n < 10 {
        v.push(digit_char_exec(n));
    } else {
        push_dec(v, n / 10);
        v.push(digit_char_exec(n % 10));
    }
}

/// Appends the decimal text of `n`, with a `-` when it is negative.
pub fn push_dec_i64(v: &mut Vec<char>, n: i64)
    requires
        n > i64::MIN,
    ensures
        final(v)@ == old(v)@ + dec_int(n as int),
{
    if n < 0 {
        v.push('-');
        push_dec(v, (-n) as u64);
    } else {
        push_dec(v, n as u64);
    }
}

/// A character in `'0'..='9'`.
pub open spec fn is_digit(c: char) -> bool {
    48 <= (c as u32) <= 57
}

/// The value of a text of decimal digits.
pub open spec fn digits_value(s: Seq<char>) -> int
    decreases s.len(),
{
    if s.len() == 0 {
        0
    } else {
        digits_value(s.drop_last()) * 10 + ((s.last() as u32) - 48)
    }
}

/// Every character is a decimal digit.
pub open spec fn all_digits(s: Seq<char>) -> bool {
    forall|i: int| 0 <= i < s.len() ==> #[trigger] is_digit(s[i])
}

/// What `str::parse::<i8>` gives: an optional `+` or `-`, then one or more
/// decimal digits, with a value in the range of `i8`.
pub open spec fn parse_i8(s: Seq<char>) -> Option<i8> {
    if s.len() == 0 {
        None
    } else {
        let neg = s[0] == '-';
        let body = if s[0] == '-' || s[0] == '+' {
            s.drop_first()
        } else {
            s
        };
        if body.len() == 0 || !all_digits(body) {
            None
        } else {
            let v = if neg {
                -digits_value(body)
            } else {
                digits_value(body)
            };
            if -128 <= v <= 127 {
                Some(v as i8)
            } else {
                None
            }
        }
    }
}

proof fn lemma_digits_value_nonneg(s: Seq<char>)
    requires
        all_digits(s),
    ensures
        digits_value(s) >= 0,
    decreases s.len(),
{
    if s.len() > 0 {
        assert(is_digit(s[s.len() - 1]));
        assert forall|i: int| 0 <= i < s.drop_last().len() implies #[trigger] is_digit(
            s.drop_last()[i],
        ) by {
            assert(is_digit(s[i]));
        }
        lemma_digits_value_nonneg(s.drop_last());
    }
}

/// Parses a signed 8-bit decimal number as `str::parse::<i8>` does.
pub fn parse_i8_exec(s: &Vec<char>) -> (r: Option<i8>)
    ensures
        r == parse_i8(s@),
{
    if s.len() == 0 {
        return None;
    }
    let neg = s[0] == '-';
    let start: usize = if s[0] == '-' || s[0] == '+' { 1 } else { 0 };
    let ghost body = if s@[0] == '-' || s@[0] == '+' {
        s@.drop_first()
    } else {
        s@
    };
    assert(body == s@.subrange(start as int, s@.len() as int));
    if s.len() == start {
        return None;
    }
    let mut acc: i32 = 0;
    let mut i: usize = start;
    while i < s.len()
        invariant
            start <= i <= s@.len(),
            body == s@.subrange(start as int, s@.len() as int),
            body == (if s@[0] == '-' || s@[0] == '+' { s@.drop_first() } else { s@ }),
            s@.len() > 0,
            start == (if s@[0] == '-' || s@[0] == '+' { 1usize } else { 0usize }),
            all_digits(s@.subrange(start as int, i as int)),
            digits_value(s@.subrange(start as int, i as int)) <= 200 ==> acc == digits_value(
                s@.subrange(start as int, i as int),
            ),
            digits_value(s@.subrange(start as int, i as int)) > 200 ==> acc > 200,
            0 <= acc <= 2009,
        decreases s.len() - i,
    {
        let c = s[i];
        let ghost pre = s@.subrange(start as int, i as int);
        let ghost nxt = s@.subrange(start as int, i + 1);
        assert(nxt.drop_last() == pre);
        assert(nxt.last() == c);
        if !((c as u32) >= 48 && (c as u32) <= 57) {
            assert(!is_digit(body[i - start]));
            assert(!all_digits(body));
            assert(body.len() != 0);
            return None;
        }
        proof {
            lemma_digits_value_nonneg(pre);
            assert forall|j: int| 0 <= j < nxt.len() implies #[trigger] is_digit(nxt[j]) by {
                if j < pre.len() {
                    assert(nxt[j] == pre[j]);
                }
            }
        }
        if acc <= 200 {
            acc = acc * 10 + ((c as u32) - 48) as i32;
        }
        i = i + 1;
    }
    assert(s@.subrange(start as int, s@.len() as int) == body);
    proof {
        lemma_digits_value_nonneg(body);
    }
    let v: i32 = if neg { -acc } else { acc };
    if -128 <= v && v <= 127 {
        Some(v as i8)
    } else {
        None
    }
}

/// `s` without its leading whitespace.
pub open spec fn trim_left(s: Seq<char>) -> Seq<char>
    decreases s.len(),
{
    if s.len() > 0 && is_ws(s[0]) {
        trim_left(s.drop_first())
    } else {
        s
    }
}

/// `s` without its trailing whitespace.
pub open spec fn trim_right(s: Seq<char>) -> Seq<char>
    decreases s.len(),
{
    if s.len() > 0 && is_ws(s.last()) {
        trim_right(s.drop_last())
    } else {
        s
    }
}

/// `s` without whitespace at either end (what `str::trim` gives).
pub open spec fn trim(s: Seq<char>) -> Seq<char> {
    trim_right(trim_left(s))
}

proof fn lemma_trim_left(s: Seq<char>, i: int)
    requires
        0 <= i <= s.len(),
        forall|j: int| 0 <= j < i ==> #[trigger] is_ws(s[j]),
        i < s.len() ==> !is_ws(s[i]),
    ensures
        trim_left(s) == s.subrange(i, s.len() as int),
    decreases i,
{
    if i == 0 {
        assert(s.subrange(0, s.len() as int) =~= s);
    } else {
        assert(is_ws(s[0]));
        let t = s.drop_first();
        assert forall|j: int| 0 <= j < i - 1 implies #[trigger] is_ws(t[j]) by {
            assert(t[j] == s[j + 1]);
        }
        lemma_trim_left(t, i - 1);
        assert(t.subrange(i - 1, t.len() as int) =~= s.subrange(i, s.len() as int));
    }
}

proof fn lemma_trim_right(s: Seq<char>, k: int)
    requires
        0 <= k <= s.len(),
        forall|j: int| k <= j < s.len() ==> #[trigger] is_ws(s[j]),
        k > 0 ==> !is_ws(s[k - 1]),
    ensures
        trim_right(s) == s.subrange(0, k),
    decreases s.len() - k,
{
    if k == s.len() {
        assert(s.subrange(0, k) =~= s);
    } else {
        assert(is_ws(s.last()));
        let t = s.drop_last();
        lemma_trim_right(t, k);
        assert(t.subrange(0, k) =~= s.subrange(0, k));
    }
}

/// The characters of `s` from `a` up to `b`.
pub fn sub_chars(s: &Vec<char>, a: usize, b: usize) -> (r: Vec<char>)
    requires
        a <= b <= s@.len(),
    ensures
        r@ == s@.subrange(a as int, b as int),
{
    let mut r: Vec<char> = Vec::new();
    let mut i = a;
    while i < b
        invariant
            a <= i <= b,
            b <= s@.len(),
            r@ == s@.subrange(a as int, i as int),
        decreases b - i,
    {
        r.push(s[i]);
        i = i + 1;
    }
    r
}

/// `s` without whitespace at either end.
pub fn trim_exec(s: &Vec<char>) -> (r: Vec<char>)
    ensures
        r@ == trim(s@),
{
    let mut i: usize = 0;
    while i < s.len() && is_ws_exec(s[i])
        invariant
            i <= s@.len(),
            forall|j: int| 0 <= j < i ==> #[trigger] is_ws(s@[j]),
        decreases s.len() - i,
    {
        i = i + 1;
    }
    proof {
        lemma_trim_left(s@, i as int);
    }
    let t = sub_chars(s, i, s.len());
    let mut k: usize = t.len();
    while k > 0 && is_ws_exec(t[k - 1])
        invariant
            k <= t@.len(),
            forall|j: int| k <= j < t@.len() ==> #[trigger] is_ws(t@[j]),
        decreases k,
    {
        k = k - 1;
    }
    proof {
        lemma_trim_right(t@, k as int);
    }
    sub_chars(&t, 0, k)
}

/// `s` begins with `p`.
pub open spec fn starts_with(s: Seq<char>, p: Seq<char>) -> bool {
    p.len() <= s.len() && s.subrange(0, p.len() as int) == p
}

/// Whether `s` begins with `p`.
pub fn starts_with_exec(s: &Vec<char>, p: &Vec<char>) -> (r: bool)
    ensures
        r == starts_with(s@, p@),
{
    if p.len() > s.len() {
        return false;
    }
    let mut i: usize = 0;
    while i < p.len()
        invariant
            i <= p@.len(),
            p@.len() <= s@.len(),
            forall|j: int| 0 <= j < i ==> s@[j] == p@[j],
        decreases p.len() - i,
    {
        if s[i] != p[i] {
            assert(s@.subrange(0, p@.len() as int)[i as int] != p@[i as int]);
            return false;
        }
        i = i + 1;
    }
    assert(s@.subrange(0, p@.len() as int) =~= p@);
    true
}

/// Whether two character sequences are the same.
pub fn same_chars(a: &Vec<char>, b: &Vec<char>) -> (r: bool)
    ensures
        r == (a@ == b@),
{
    if a.len() != b.len() {
        return false;
    }
    let mut i: usize = 0;
    while i < a.len()
        invariant
            i <= a.len(),
            a.len() == b.len(),
            a@.subrange(0, i as int) == b@.subrange(0, i as int),
        decreases a.len() - i,
    {
        if a[i] != b[i] {
            assert(a@[i as int] != b@[i as int]);
            return false;
        }
        assert(a@.subrange(0, i + 1) == a@.subrange(0, i as int).push(a@[i as int]));
        assert(b@.subrange(0, i + 1) == b@.subrange(0, i as int).push(b@[i as int]));
        i = i + 1;
    }
    assert(a@ == a@.subrange(0, a@.len() as int));
    assert(b@ == b@.subrange(0, b@.len() as int));
    true
}

/// Whether a string slice reads exactly `t`.
pub fn str_is(s: &str, t: &str) -> (r: bool)
    ensures
        r == (s@ == t@),
{
    let a = str_chars(s);
    let b = str_chars(t);
    same_chars(&a, &b)
}

/// Whether a character sequence reads exactly `t`.
pub fn chars_is(v: &Vec<char>, t: &str) -> (r: bool)
    ensures
        r == (v@ == t@),
{
    let b = str_chars(t);
    same_chars(v, &b)
}

/// A string made of `a` followed by `b`.
pub fn concat_str(a: &str, b: &str) -> (r: String)
    ensures
        r@ == a@ + b@,
{
    let mut v = str_chars(a);
    let w = str_chars(b);
    push_chars(&mut v, &w);
    chars_to_string(&v)
}

/// A string holding the text of `s`.
pub fn str_string(s: &str) -> (r: String)
    ensures
        r@ == s@,
{
    chars_to_string(&str_chars(s))
}

/// The digits of `s` from `start` on with their value, capped just above
/// `cap`: `(true, v)` when they are one or more decimal digits, `v` being
/// their value when it is at most `cap` and `cap + 1` otherwise.
fn digits_from(s: &Vec<char>, start: usize, cap: u64) -> (r: (bool, u128))
    requires
        start <= s@.len(),
    ensures
        r.0 == (s@.len() > start && all_digits(s@.subrange(start as int, s@.len() as int))),
        r.0 ==> r.1 == if digits_value(s@.subrange(start as int, s@.len() as int)) <= cap {
            digits_value(s@.subrange(start as int, s@.len() as int))
        } else {
            cap + 1
        },
{
    if s.len() == start {
        return (false, 0);
    }
    let mut acc: u128 = 0;
    let mut i: usize = start;
    while i < s.len()
        invariant
            start <= i <= s@.len(),
            all_digits(s@.subrange(start as int, i as int)),
            digits_value(s@.subrange(start as int, i as int)) <= cap ==> acc == digits_value(
                s@.subrange(start as int, i as int),
            ),
            digits_value(s@.subrange(start as int, i as int)) > cap ==> acc == cap + 1,
        decreases s.len() - i,
    {
        let c = s[i];
        let ghost pre = s@.subrange(start as int, i as int);
        let ghost nxt = s@.subrange(start as int, i + 1);
        assert(nxt.drop_last() == pre);
        assert(nxt.last() == c);
        if !((c as u32) >= 48 && (c as u32) <= 57) {
            assert(!is_digit(s@[i as int]));
            assert(s@.subrange(start as int, s@.len() as int)[i - start] == s@[i as int]);
            return (false, 0);
        }
        proof {
            lemma_digits_value_nonneg(pre);
            assert forall|j: int| 0 <= j < nxt.len() implies #[trigger] is_digit(nxt[j]) by {
                if j < pre.len() {
                    assert(nxt[j] == pre[j]);
                }
            }
        }
        let d = ((c as u32) - 48) as u128;
        if acc <= cap as u128 {
            let q = (cap / 10) as u128;
            let m = (cap % 10) as u128;
            if acc > q || (acc == q && d > m) {
                proof {
                    assert(cap == q * 10 + m);
                    assert(acc * 10 + d > cap) by (nonlinear_arith)
                        requires
                            acc > q || (acc == q && d > m),
                            cap == q * 10 + m,
                            m < 10,
                            0 <= d,
                    ;
                }
                acc = cap as u128 + 1;
            } else {
                proof {
                    assert(cap == q * 10 + m);
                    assert(acc * 10 + d <= cap) by (nonlinear_arith)
                        requires
                            acc <= q,
                            acc < q || d <= m,
                            cap == q * 10 + m,
                            d <= 9,
                            0 <= m,
                    ;
                }
                acc = acc * 10 + d;
            }
        }
        i = i + 1;
    }
    (true, acc)
}

/// What `str::parse` gives for an unsigned integer type whose largest
/// value is `max`: an optional `+`, then one or more decimal digits, with a
/// value of at most `max`.
pub open spec fn parse_uint(s: Seq<char>, max: int) -> Option<int> {
    let body = if s.len() > 0 && s[0] == '+' {
        s.drop_first()
    } else {
        s
    };
    if body.len() == 0 || !all_digits(body) || digits_value(body) > max {
        None
    } else {
        Some(digits_value(body))
    }
}

/// What `str::parse::<i32>` gives: an optional `+` or `-`, then one or more
/// decimal digits, with a value in the range of `i32`.
pub open spec fn parse_i32(s: Seq<char>) -> Option<int> {
    if s.len() == 0 {
        None
    } else {
        let neg = s[0] == '-';
        let body = if s[0] == '-' || s[0] == '+' {
            s.drop_first()
        } else {
            s
        };
        if body.len() == 0 || !all_digits(body) {
            None
        } else {
            let v = if neg {
                -digits_value(body)
            } else {
                digits_value(body)
            };
            if -0x8000_0000 <= v <= 0x7fff_ffff {
                Some(v)
            } else {
                None
            }
        }
    }
}

/// Parses an unsigned decimal number of at most `max` as `str::parse` does.
pub fn parse_uint_exec(s: &Vec<char>, max: u64) -> (r: Option<u64>)
    ensures
        r is None ==> parse_uint(s@, max as int) is None,
        r matches Some(x) ==> parse_uint(s@, max as int) == Some(x as int),
{
    let start: usize = if s.len() > 0 && s[0] == '+' { 1 } else { 0 };
    let ghost body = if s@.len() > 0 && s@[0] == '+' {
        s@.drop_first()
    } else {
        s@
    };
    assert(body == s@.subrange(start as int, s@.len() as int));
    let (ok, v) = digits_from(s, start, max);
    proof {
        if ok {
            lemma_digits_value_nonneg(body);
        }
    }
    if !ok || v > max as u128 {
        None
    } else {
        Some(v as u64)
    }
}

/// Parses a signed 32-bit decimal number as `str::parse::<i32>` does.
pub fn parse_i32_exec(s: &Vec<char>) -> (r: Option<i32>)
    ensures
        r is None ==> parse_i32(s@) is None,
        r matches Some(x) ==> parse_i32(s@) == Some(x as int),
{
    if s.len() == 0 {
        return None;
    }
    let neg = s[0] == '-';
    let start: usize = if s[0] == '-' || s[0] == '+' { 1 } else { 0 };
    let ghost body = if s@[0] == '-' || s@[0] == '+' {
        s@.drop_first()
    } else {
        s@
    };
    assert(body == s@.subrange(start as int, s@.len() as int));
    let (ok, v) = digits_from(s, start, 0x8000_0000);
    if !ok {
        return None;
    }
    proof {
        lemma_digits_value_nonneg(body);
    }
    if neg {
        if v > 0x8000_0000u128 {
            None
        } else {
            Some((0 - (v as i64)) as i32)
        }
    } else {
        if v > 0x7fff_ffffu128 {
            None
        } else {
            Some(v as i32)
        }
    }
}

/// Whether `s` holds `a` immediately followed by `b`.
pub open spec fn has_pair(s: Seq<char>, a: char, b: char) -> bool {
    exists|k: int| 0 <= k && k + 1 < s.len() && s[k] == a && #[trigger] s[k + 1] == b
}

pub fn has_pair_exec(s: &Vec<char>, a: char, b: char) -> (r: bool)
    ensures
        r == has_pair(s@, a, b),
{
    let mut k: usize = 0;
    while k < s.len() && k + 1 < s.len()
        invariant
            k <= s.len(),
            forall|j: int| 0 <= j < k && j + 1 < s@.len() ==> !(s@[j] == a && #[trigger] s@[j + 1] == b),
        decreases s.len() - k,
    {
        if s[k] == a && s[k + 1] == b {
            return true;
        }
        k = k + 1;
    }
    proof {
        if has_pair(s@, a, b) {
            let j = choose|j: int| 0 <= j && j + 1 < s@.len() && s@[j] == a && #[trigger] s@[j + 1] == b;
            assert(j < k);
        }
    }
    false
}

} // verus!
