use vstd::prelude::*;

verus! {

/// `a` comes before `b` in the order of `String`: the first differing
/// character decides by its code, and a proper prefix comes first.
pub open spec fn lex_lt(a: Seq<char>, b: Seq<char>) -> bool
    decreases a.len(),
{
    if b.len() == 0 {
        false
    } else if a.len() == 0 {
        true
    } else if a[0] != b[0] {
        (a[0] as u32) < (b[0] as u32)
    } else {
        lex_lt(a.drop_first(), b.drop_first())
    }
}

/// Every element comes strictly before the ones after it.
pub open spec fn strictly_sorted(s: Seq<Seq<char>>) -> bool {
    forall|i: int, j: int| 0 <= i < j < s.len() ==> lex_lt(#[trigger] s[i], #[trigger] s[j])
}

/// `x` put into the sorted `acc` at its place, unless it is there already.
pub open spec fn insert_sorted(acc: Seq<Seq<char>>, x: Seq<char>) -> Seq<Seq<char>>
    decreases acc.len(),
{
    if acc.len() == 0 {
        seq![x]
    } else if acc[0] == x {
        acc
    } else if lex_lt(x, acc[0]) {
        seq![x] + acc
    } else {
        seq![acc[0]] + insert_sorted(acc.drop_first(), x)
    }
}

/// The distinct elements of `s` in increasing order.
pub open spec fn uniq_sort(s: Seq<Seq<char>>) -> Seq<Seq<char>>
    decreases s.len(),
{
    if s.len() == 0 {
        Seq::empty()
    } else {
        insert_sorted(uniq_sort(s.drop_last()), s.last())
    }
}

/// Different characters have different codes.
pub proof fn lemma_char_code_injective(c: char, d: char)
    ensures
        c != d ==> (c as u32) != (d as u32),
{
    vstd::utf8::char_u32_cast(c, c as u32);
    vstd::utf8::char_u32_cast(d, d as u32);
}

pub proof fn lemma_lex_irreflexive(a: Seq<char>)
    ensures
        !lex_lt(a, a),
    decreases a.len(),
{
    if a.len() > 0 {
        lemma_lex_irreflexive(a.drop_first());
    }
}

pub proof fn lemma_lex_total(a: Seq<char>, b: Seq<char>)
    ensures
        a != b ==> lex_lt(a, b) || lex_lt(b, a),
    decreases a.len(),
{
    if a.len() > 0 && b.len() > 0 && a[0] == b[0] {
        lemma_lex_total(a.drop_first(), b.drop_first());
        if a.drop_first() == b.drop_first() {
            assert(a == seq![a[0]] + a.drop_first());
            assert(b == seq![b[0]] + b.drop_first());
        }
    } else if a.len() == 0 && b.len() == 0 {
        assert(a == b);
    } else if a.len() > 0 && b.len() > 0 {
        lemma_char_code_injective(a[0], b[0]);
    }
}

pub proof fn lemma_lex_asymmetric(a: Seq<char>, b: Seq<char>)
    ensures
        lex_lt(a, b) ==> !lex_lt(b, a),
    decreases a.len(),
{
    if a.len() > 0 && b.len() > 0 && a[0] == b[0] {
        lemma_lex_asymmetric(a.drop_first(), b.drop_first());
    }
}

pub proof fn lemma_lex_transitive(a: Seq<char>, b: Seq<char>, c: Seq<char>)
    ensures
        lex_lt(a, b) && lex_lt(b, c) ==> lex_lt(a, c),
    decreases a.len(),
{
    if a.len() > 0 && b.len() > 0 && c.len() > 0 && a[0] == b[0] && b[0] == c[0] {
        lemma_lex_transitive(a.drop_first(), b.drop_first(), c.drop_first());
    }
}

/// Inserting keeps the order strict and adds exactly `x`.
pub proof fn lemma_insert_sorted(acc: Seq<Seq<char>>, x: Seq<char>)
    requires
        strictly_sorted(acc),
    ensures
        strictly_sorted(insert_sorted(acc, x)),
        forall|y: Seq<char>| #[trigger] insert_sorted(acc, x).contains(y) <==> (acc.contains(y) || y == x),
    decreases acc.len(),
{
    let r = insert_sorted(acc, x);
    if acc.len() == 0 {
        assert(r == seq![x]);
        assert forall|y: Seq<char>| #[trigger] r.contains(y) <==> (acc.contains(y) || y == x) by {
            if r.contains(y) {
                let k = choose|k: int| 0 <= k < r.len() && r[k] == y;
                assert(k == 0);
            }
            if y == x {
                assert(r[0] == y);
            }
        }
    } else if acc[0] == x {
        assert forall|y: Seq<char>| #[trigger] r.contains(y) <==> (acc.contains(y) || y == x) by {
            if y == x {
                assert(acc[0] == y);
            }
        }
    } else if lex_lt(x, acc[0]) {
        assert forall|i: int, j: int| 0 <= i < j < r.len() implies lex_lt(#[trigger] r[i], #[trigger] r[j]) by {
            if i == 0 {
                assert(r[j] == acc[j - 1]);
                if j - 1 > 0 {
                    assert(lex_lt(acc[0], acc[j - 1]));
                    lemma_lex_transitive(x, acc[0], acc[j - 1]);
                }
            } else {
                assert(r[i] == acc[i - 1] && r[j] == acc[j - 1]);
            }
        }
        assert forall|y: Seq<char>| #[trigger] r.contains(y) <==> (acc.contains(y) || y == x) by {
            if r.contains(y) {
                let k = choose|k: int| 0 <= k < r.len() && r[k] == y;
                if k > 0 {
                    assert(acc[k - 1] == y);
                }
            }
            if acc.contains(y) {
                let k = choose|k: int| 0 <= k < acc.len() && acc[k] == y;
                assert(r[k + 1] == y);
            }
            if y == x {
                assert(r[0] == y);
            }
        }
    } else {
        let rest = acc.drop_first();
        assert forall|i: int, j: int| 0 <= i < j < rest.len() implies lex_lt(#[trigger] rest[i], #[trigger] rest[j]) by {
            assert(rest[i] == acc[i + 1] && rest[j] == acc[j + 1]);
        }
        lemma_insert_sorted(rest, x);
        let t = insert_sorted(rest, x);
        assert(r == seq![acc[0]] + t);
        lemma_lex_total(x, acc[0]);
        assert(lex_lt(acc[0], x));
        assert forall|i: int, j: int| 0 <= i < j < r.len() implies lex_lt(#[trigger] r[i], #[trigger] r[j]) by {
            if i == 0 {
                assert(r[j] == t[j - 1]);
                assert(t.contains(t[j - 1]));
                if t[j - 1] != x {
                    assert(rest.contains(t[j - 1]));
                    let k = choose|k: int| 0 <= k < rest.len() && rest[k] == t[j - 1];
                    assert(acc[k + 1] == t[j - 1]);
                    assert(lex_lt(acc[0], acc[k + 1]));
                }
            } else {
                assert(r[i] == t[i - 1] && r[j] == t[j - 1]);
            }
        }
        assert forall|y: Seq<char>| #[trigger] r.contains(y) <==> (acc.contains(y) || y == x) by {
            if r.contains(y) {
                let k = choose|k: int| 0 <= k < r.len() && r[k] == y;
                if k == 0 {
                    assert(acc[0] == y);
                } else {
                    assert(t[k - 1] == y);
                    assert(t.contains(y));
                    if rest.contains(y) {
                        let m = choose|m: int| 0 <= m < rest.len() && rest[m] == y;
                        assert(acc[m + 1] == y);
                    }
                }
            }
            if acc.contains(y) {
                let k = choose|k: int| 0 <= k < acc.len() && acc[k] == y;
                if k == 0 {
                    assert(r[0] == y);
                } else {
                    assert(rest[k - 1] == y);
                    assert(t.contains(y));
                    let m = choose|m: int| 0 <= m < t.len() && t[m] == y;
                    assert(r[m + 1] == y);
                }
            }
            if y == x {
                assert(t.contains(y));
                let m = choose|m: int| 0 <= m < t.len() && t[m] == y;
                assert(r[m + 1] == y);
            }
        }
    }
}

/// What `uniq_sort` gives is in strictly increasing order and holds exactly
/// the elements of its input: duplicates are dropped, nothing else is.
pub proof fn lemma_uniq_sort(s: Seq<Seq<char>>)
    ensures
        strictly_sorted(uniq_sort(s)),
        forall|y: Seq<char>| #[trigger] uniq_sort(s).contains(y) <==> s.contains(y),
    decreases s.len(),
{
    if s.len() > 0 {
        let p = s.drop_last();
        lemma_uniq_sort(p);
        lemma_insert_sorted(uniq_sort(p), s.last());
        assert forall|y: Seq<char>| #[trigger] uniq_sort(s).contains(y) <==> s.contains(y) by {
            if p.contains(y) {
                let k = choose|k: int| 0 <= k < p.len() && p[k] == y;
                assert(s[k] == y);
            }
            if s.contains(y) {
                let k = choose|k: int| 0 <= k < s.len() && s[k] == y;
                if k < s.len() - 1 {
                    assert(p[k] == y);
                }
            }
        }
    }
}

/// The texts of a list of character vectors.
pub open spec fn vec_views(s: Seq<Vec<char>>) -> Seq<Seq<char>> {
    s.map_values(|v: Vec<char>| v@)
}

/// Skipping a prefix of smaller elements does not change where `x` goes.
proof fn lemma_insert_after_prefix(acc: Seq<Seq<char>>, x: Seq<char>, j: int)
    requires
        0 <= j <= acc.len(),
        forall|k: int| 0 <= k < j ==> lex_lt(#[trigger] acc[k], x),
    ensures
        insert_sorted(acc, x) == acc.subrange(0, j) + insert_sorted(acc.subrange(j, acc.len() as int), x),
    decreases j,
{
    if j == 0 {
        assert(acc.subrange(0, 0) + acc.subrange(0, acc.len() as int) == acc);
    } else {
        lemma_lex_irreflexive(x);
        lemma_lex_asymmetric(acc[0], x);
        assert(acc[0] != x);
        let rest = acc.drop_first();
        assert forall|k: int| 0 <= k < j - 1 implies lex_lt(#[trigger] rest[k], x) by {
            assert(rest[k] == acc[k + 1]);
        }
        lemma_insert_after_prefix(rest, x, j - 1);
        assert(rest.subrange(j - 1, rest.len() as int) == acc.subrange(j, acc.len() as int));
        assert(seq![acc[0]] + rest.subrange(0, j - 1) == acc.subrange(0, j));
    }
}

/// Whether `a` comes before `b`, reading from position `i` on.
fn lt_from(a: &Vec<char>, b: &Vec<char>, i: usize) -> (r: bool)
    requires
        i <= a.len(),
        i <= b.len(),
    ensures
        r == lex_lt(a@.subrange(i as int, a.len() as int), b@.subrange(i as int, b.len() as int)),
    decreases a.len() - i,
{
    let ghost sa = a@.subrange(i as int, a.len() as int);
    let ghost sb = b@.subrange(i as int, b.len() as int);
    if i >= b.len() {
        false
    } else if i >= a.len() {
        true
    } else if a[i] != b[i] {
        (a[i] as u32) < (b[i] as u32)
    } else {
        assert(sa.drop_first() == a@.subrange(i + 1, a.len() as int));
        assert(sb.drop_first() == b@.subrange(i + 1, b.len() as int));
        lt_from(a, b, i + 1)
    }
}

/// Whether `a` comes before `b` in the order of `String`.
pub fn chars_lt(a: &Vec<char>, b: &Vec<char>) -> (r: bool)
    ensures
        r == lex_lt(a@, b@),
{
    assert(a@.subrange(0, a.len() as int) == a@);
    assert(b@.subrange(0, b.len() as int) == b@);
    lt_from(a, b, 0)
}

/// Puts `x` into the sorted `acc` at its place, unless it is there already.
pub fn insert_sorted_exec(acc: &mut Vec<Vec<char>>, x: Vec<char>)
    ensures
        vec_views(final(acc)@) == insert_sorted(vec_views(old(acc)@), x@),
{
    let ghost a = vec_views(acc@);
    let mut j: usize = 0;
    while j < acc.len() && chars_lt(&acc[j], &x)
        invariant
            j <= acc.len(),
            acc@ == old(acc)@,
            a == vec_views(acc@),
            forall|k: int| 0 <= k < j ==> lex_lt(#[trigger] a[k], x@),
        decreases acc.len() - j,
    {
        assert(a[j as int] == acc@[j as int]@);
        j = j + 1;
    }
    proof {
        lemma_insert_after_prefix(a, x@, j as int);
    }
    let ghost tail = a.subrange(j as int, a.len() as int);
    if j < acc.len() && crate::text::same_chars(&acc[j], &x) {
        assert(tail[0] == x@);
        assert(a.subrange(0, j as int) + tail == a);
    } else {
        if j < acc.len() {
            assert(tail[0] == a[j as int]);
            assert(!lex_lt(a[j as int], x@));
            proof {
                lemma_lex_total(a[j as int], x@);
            }
        }
        acc.insert(j, x);
        assert(vec_views(acc@) == a.subrange(0, j as int) + (seq![x@] + tail));
    }
}

/// The distinct texts of `s` in increasing order.
pub fn uniq_sort_exec(s: &Vec<Vec<char>>) -> (r: Vec<Vec<char>>)
    ensures
        vec_views(r@) == uniq_sort(vec_views(s@)),
{
    let mut r: Vec<Vec<char>> = Vec::new();
    let mut i: usize = 0;
    while i < s.len()
        invariant
            i <= s.len(),
            vec_views(r@) == uniq_sort(vec_views(s@).subrange(0, i as int)),
        decreases s.len() - i,
    {
        let ghost p = vec_views(s@).subrange(0, i + 1);
        assert(p.drop_last() == vec_views(s@).subrange(0, i as int));
        assert(p.last() == s@[i as int]@);
        let x = crate::text::sub_chars(&s[i], 0, s[i].len());
        assert(s@[i as int]@.subrange(0, s@[i as int]@.len() as int) == s@[i as int]@);
        insert_sorted_exec(&mut r, x);
        i = i + 1;
    }
    assert(vec_views(s@).subrange(0, s@.len() as int) == vec_views(s@));
    r
}

} // verus!
