use vstd::prelude::*;
use crate::edaxrunner::strings_view;
use crate::lexorder::{uniq_sort, uniq_sort_exec, vec_views};
use crate::text::{chars_to_string, dec, is_ws, push_chars, push_dec, same_chars, str_chars};

verus! {

pub const INITIALPOSFILE: &'static str = "data/initialpos.txt";
pub const EQUALFILE: &'static str = "data/initialpos.eq5.txt";

/// Positions (in RFEN) filed under one tag.
pub struct RfenSet {
    pub tag: String,
    pub rfens: Vec<String>,
}

impl View for RfenSet {
    type V = (Seq<char>, Seq<Seq<char>>);

    open spec fn view(&self) -> Self::V {
        (self.tag@, strings_view(self.rfens@))
    }
}

/// The texts of `v` with `sep` between them.
pub open spec fn join(v: Seq<Seq<char>>, sep: Seq<char>) -> Seq<char>
    decreases v.len(),
{
    if v.len() == 0 {
        Seq::empty()
    } else if v.len() == 1 {
        v[0]
    } else {
        join(v.drop_last(), sep) + sep + v.last()
    }
}

impl RfenSet {
    pub fn new(tag: String, rfen: String) -> (r: RfenSet)
        ensures
            r@ == (tag@, seq![rfen@]),
    {
        let mut rfens: Vec<String> = Vec::new();
        rfens.push(rfen);
        let r = RfenSet { tag, rfens };
        assert(strings_view(r.rfens@) == seq![rfen@]);
        r
    }

    pub fn add(&mut self, rfen: &str)
        ensures
            final(self)@ == (old(self)@.0, old(self)@.1.push(rfen@)),
    {
        let s = chars_to_string(&str_chars(rfen));
        self.rfens.push(s);
        assert(strings_view(self.rfens@) == strings_view(old(self).rfens@).push(rfen@));
    }

    pub fn len(&self) -> (r: usize)
        ensures
            r == self@.1.len(),
    {
        self.rfens.len()
    }

    /// `# tag count` on a line, then the positions one per line.
    pub fn dump(&self) -> (r: String)
        ensures
            r@ == "# "@ + self@.0 + " "@ + dec(self@.1.len()) + "\n"@ + join(self@.1, "\n"@),
    {
        let mut v = str_chars("# ");
        push_chars(&mut v, &str_chars(self.tag.as_str()));
        push_chars(&mut v, &str_chars(" "));
        push_dec(&mut v, self.rfens.len() as u64);
        push_chars(&mut v, &str_chars("\n"));
        let ghost head = v@;
        let ghost rv = strings_view(self.rfens@);
        let mut i: usize = 0;
        while i < self.rfens.len()
            invariant
                i <= self.rfens.len(),
                rv == strings_view(self.rfens@),
                v@ == head + join(rv.subrange(0, i as int), "\n"@),
            decreases self.rfens.len() - i,
        {
            let ghost prev = rv.subrange(0, i as int);
            assert(rv.subrange(0, i + 1).drop_last() == prev);
            if i > 0 {
                push_chars(&mut v, &str_chars("\n"));
            }
            push_chars(&mut v, &str_chars(self.rfens[i].as_str()));
            proof {
                if i == 0 {
                    assert(join(prev, "\n"@) == Seq::<char>::empty());
                    assert(v@ == head + join(rv.subrange(0, i + 1), "\n"@));
                }
            }
            i = i + 1;
        }
        assert(rv.subrange(0, rv.len() as int) == rv);
        chars_to_string(&v)
    }
}

/// The sets of positions, in the order their tags were first met.
pub struct InitialPos {
    pub list: Vec<RfenSet>,
}

impl View for InitialPos {
    type V = Seq<(Seq<char>, Seq<Seq<char>>)>;

    open spec fn view(&self) -> Self::V {
        self.list@.map_values(|s: RfenSet| s@)
    }
}

/// Where the first set with tag `tag` stands, or -1.
pub open spec fn tag_index(l: Seq<(Seq<char>, Seq<Seq<char>>)>, tag: Seq<char>) -> int
    decreases l.len(),
{
    if l.len() == 0 {
        -1
    } else if l[0].0 == tag {
        0
    } else {
        let k = tag_index(l.drop_first(), tag);
        if k < 0 {
            -1
        } else {
            k + 1
        }
    }
}

/// `rfen` filed under `tag`: added to that set, or a new set at the end.
pub open spec fn ip_add(l: Seq<(Seq<char>, Seq<Seq<char>>)>, tag: Seq<char>, rfen: Seq<char>) -> Seq<
    (Seq<char>, Seq<Seq<char>>),
> {
    let k = tag_index(l, tag);
    if k >= 0 {
        l.update(k, (l[k].0, l[k].1.push(rfen)))
    } else {
        l.push((tag, seq![rfen]))
    }
}

/// No two sets share a tag.
pub open spec fn distinct_tags(l: Seq<(Seq<char>, Seq<Seq<char>>)>) -> bool {
    forall|i: int, j: int| 0 <= i < j < l.len() ==> (#[trigger] l[i]).0 != (#[trigger] l[j]).0
}

/// The positions of the sets, among the first `n`, whose tag is in `tags`.
pub open spec fn select_rfens(l: Seq<(Seq<char>, Seq<Seq<char>>)>, tags: Seq<Seq<char>>, n: nat) -> Seq<
    Seq<char>,
>
    decreases n,
{
    if n == 0 {
        Seq::empty()
    } else {
        select_rfens(l, tags, (n - 1) as nat) + if tags.contains(l[n - 1].0) {
            l[n - 1].1
        } else {
            Seq::empty()
        }
    }
}

/// As `select_rfens`, each set without repeats and in increasing order.
pub open spec fn select_uniq(l: Seq<(Seq<char>, Seq<Seq<char>>)>, tags: Seq<Seq<char>>, n: nat) -> Seq<
    Seq<char>,
>
    decreases n,
{
    if n == 0 {
        Seq::empty()
    } else {
        select_uniq(l, tags, (n - 1) as nat) + if tags.contains(l[n - 1].0) {
            uniq_sort(l[n - 1].1)
        } else {
            Seq::empty()
        }
    }
}

/// The positions of the first `n` sets.
pub open spec fn all_rfens(l: Seq<(Seq<char>, Seq<Seq<char>>)>, n: nat) -> Seq<Seq<char>>
    decreases n,
{
    if n == 0 {
        Seq::empty()
    } else {
        all_rfens(l, (n - 1) as nat) + l[n - 1].1
    }
}

/// The texts of a list of string slices.
pub open spec fn strs_view(v: Seq<&str>) -> Seq<Seq<char>> {
    v.map_values(|s: &str| s@)
}

pub proof fn lemma_tag_index(l: Seq<(Seq<char>, Seq<Seq<char>>)>, tag: Seq<char>)
    ensures
        -1 <= tag_index(l, tag) < l.len(),
        tag_index(l, tag) >= 0 ==> l[tag_index(l, tag)].0 == tag,
        tag_index(l, tag) >= 0 ==> forall|i: int| 0 <= i < tag_index(l, tag) ==> (#[trigger] l[i]).0 != tag,
        tag_index(l, tag) < 0 ==> forall|i: int| 0 <= i < l.len() ==> (#[trigger] l[i]).0 != tag,
    decreases l.len(),
{
    if l.len() > 0 && l[0].0 != tag {
        let r = l.drop_first();
        lemma_tag_index(r, tag);
        assert forall|i: int| 0 < i < l.len() implies #[trigger] l[i] == r[i - 1] by {}
    }
}

/// Filing a position keeps the tags distinct.
pub proof fn lemma_add_keeps_tags_distinct(l: Seq<(Seq<char>, Seq<Seq<char>>)>, tag: Seq<char>, rfen: Seq<char>)
    requires
        distinct_tags(l),
    ensures
        distinct_tags(ip_add(l, tag, rfen)),
        tag_index(ip_add(l, tag, rfen), tag) >= 0,
        ip_add(l, tag, rfen)[tag_index(ip_add(l, tag, rfen), tag)].1.last() == rfen,
{
    lemma_tag_index(l, tag);
    let r = ip_add(l, tag, rfen);
    lemma_tag_index(r, tag);
    if tag_index(l, tag) >= 0 {
        let k = tag_index(l, tag);
        assert forall|i: int, j: int| 0 <= i < j < r.len() implies (#[trigger] r[i]).0 != (#[trigger] r[j]).0 by {
            assert(r[i].0 == l[i].0 && r[j].0 == l[j].0);
        }
        assert(r[k].0 == tag);
        if tag_index(r, tag) != k {
            assert(r[tag_index(r, tag)].0 == tag);
        }
    } else {
        assert forall|i: int, j: int| 0 <= i < j < r.len() implies (#[trigger] r[i]).0 != (#[trigger] r[j]).0 by {
            if j == l.len() {
                assert(r[i] == l[i]);
            } else {
                assert(r[i] == l[i] && r[j] == l[j]);
            }
        }
        assert(r[l.len() as int].0 == tag);
        if tag_index(r, tag) != l.len() {
            assert(r[tag_index(r, tag)] == l[tag_index(r, tag)]);
        }
    }
}

/// Where the run of whitespace starting at `j` ends.
pub open spec fn ws_end(s: Seq<char>, j: int) -> int
    decreases s.len() - j,
{
    if j < 0 || j >= s.len() || !is_ws(s[j]) {
        j
    } else {
        ws_end(s, j + 1)
    }
}

/// Where the run of non-whitespace starting at `j` ends.
pub open spec fn word_end(s: Seq<char>, j: int) -> int
    decreases s.len() - j,
{
    if j < 0 || j >= s.len() || is_ws(s[j]) {
        j
    } else {
        word_end(s, j + 1)
    }
}

/// At `i` stand `#`, whitespace and then a word.
pub open spec fn tag_at(s: Seq<char>, i: int) -> bool {
    0 <= i && i + 1 < s.len() && s[i] == '#' && is_ws(s[i + 1]) && ws_end(s, i + 1) < s.len()
}

/// The word after the first tag mark at or after `i`.
pub open spec fn tag_capture_from(s: Seq<char>, i: int) -> Option<Seq<char>>
    decreases s.len() - i,
{
    if i < 0 || i >= s.len() {
        None
    } else if tag_at(s, i) {
        let k = ws_end(s, i + 1);
        Some(s.subrange(k, word_end(s, k)))
    } else {
        tag_capture_from(s, i + 1)
    }
}

/// What the first group of `#\s+(\S+) *` captures in `s` (leftmost match,
/// greedy repetition, `\s` being Unicode `White_Space`).
pub open spec fn tag_capture(s: Seq<char>) -> Option<Seq<char>> {
    tag_capture_from(s, 0)
}

/// A character of the board part of an RFEN: `1`-`8`, `A`-`H`, `a`-`h`, `/`.
pub open spec fn is_rfen_char(c: char) -> bool {
    let u = c as u32;
    (49 <= u <= 56) || (65 <= u <= 72) || (97 <= u <= 104) || u == 47
}

/// Where the run of board characters starting at `j` ends.
pub open spec fn board_end(s: Seq<char>, j: int) -> int
    decreases s.len() - j,
{
    if j < 0 || j >= s.len() || !is_rfen_char(s[j]) {
        j
    } else {
        board_end(s, j + 1)
    }
}

/// What the group of `^([1-8A-Ha-h/]+ [bw])` captures in `s`: a line that
/// starts with board characters, a space and the side to move.
pub open spec fn rfen_capture(s: Seq<char>) -> Option<Seq<char>> {
    let k = board_end(s, 0);
    if 1 <= k && k + 1 < s.len() && s[k] == ' ' && (s[k + 1] == 'b' || s[k + 1] == 'w') {
        Some(s.subrange(0, k + 2))
    } else {
        None
    }
}

/// Matches `#\s+(\S+) *` in `line` with the `regex` crate and gives the
/// first group; the contract states that group as the crate documents its
/// leftmost-first, greedy matching.
#[verifier::external_body]
fn capture_tag(line: &str) -> (r: Option<String>)
    ensures
        match tag_capture(line@) {
            None => r is None,
            Some(t) => r matches Some(x) && x@ == t,
        },
{
    let re = regex::Regex::new("#\\s+(\\S+) *").unwrap();
    re.captures(line).map(|c| c[1].to_string())
}

/// Matches `^([1-8A-Ha-h/]+ [bw])` in `line` with the `regex` crate and gives
/// the group.
#[verifier::external_body]
fn capture_rfen(line: &str) -> (r: Option<String>)
    ensures
        match rfen_capture(line@) {
            None => r is None,
            Some(t) => r matches Some(x) && x@ == t,
        },
{
    let re = regex::Regex::new("^([1-8A-Ha-h/]+ [bw])").unwrap();
    re.captures(line).map(|c| c[1].to_string())
}

/// The sets and the current tag after one line of a positions file: a tag
/// mark changes the tag, and a line starting with a position files it under
/// the (new) tag.
pub open spec fn read_step(st: (Seq<(Seq<char>, Seq<Seq<char>>)>, Seq<char>), line: Seq<char>) -> (
    Seq<(Seq<char>, Seq<Seq<char>>)>,
    Seq<char>,
) {
    let tag = match tag_capture(line) {
        Some(t) => t,
        None => st.1,
    };
    match rfen_capture(line) {
        Some(r) => (ip_add(st.0, tag, r), tag),
        None => (st.0, tag),
    }
}

/// The sets and the tag after the first `n` lines, starting with no set and
/// an empty tag.
pub open spec fn read_lines(lines: Seq<Seq<char>>, n: nat) -> (Seq<(Seq<char>, Seq<Seq<char>>)>, Seq<char>)
    decreases n,
{
    if n == 0 {
        (Seq::empty(), Seq::empty())
    } else {
        read_step(read_lines(lines, (n - 1) as nat), lines[n - 1])
    }
}

/// A positions file never yields two sets with the same tag.
pub proof fn lemma_read_tags_distinct(lines: Seq<Seq<char>>, n: nat)
    ensures
        distinct_tags(read_lines(lines, n).0),
    decreases n,
{
    if n > 0 {
        lemma_read_tags_distinct(lines, (n - 1) as nat);
        let st = read_lines(lines, (n - 1) as nat);
        let line = lines[n - 1];
        let tag = match tag_capture(line) {
            Some(t) => t,
            None => st.1,
        };
        if let Some(r) = rfen_capture(line) {
            lemma_add_keeps_tags_distinct(st.0, tag, r);
        }
    }
}

impl InitialPos {
    pub fn new() -> (r: InitialPos)
        ensures
            r@ == Seq::<(Seq<char>, Seq<Seq<char>>)>::empty(),
    {
        let r = InitialPos { list: Vec::new() };
        assert(r@ == Seq::<(Seq<char>, Seq<Seq<char>>)>::empty());
        r
    }

    /// Where the first set tagged `tag` stands.
    fn find(&self, tag: &Vec<char>) -> (r: Option<usize>)
        ensures
            tag_index(self@, tag@) < 0 ==> r is None,
            tag_index(self@, tag@) >= 0 ==> r == Some(tag_index(self@, tag@) as usize),
    {
        proof {
            lemma_tag_index(self@, tag@);
        }
        let mut i: usize = 0;
        while i < self.list.len()
            invariant
                i <= self.list.len(),
                forall|k: int| 0 <= k < i ==> (#[trigger] self@[k]).0 != tag@,
            decreases self.list.len() - i,
        {
            let t = str_chars(self.list[i].tag.as_str());
            assert(self@[i as int] == self.list@[i as int]@);
            if same_chars(&t, tag) {
                assert(self@[i as int].0 == tag@);
                proof {
                    lemma_tag_index(self@, tag@);
                }
                return Some(i);
            }
            i = i + 1;
        }
        None
    }

    /// Files `rfen` under `tag`.
    pub fn add(&mut self, tag: &str, rfen: &str)
        ensures
            final(self)@ == ip_add(old(self)@, tag@, rfen@),
    {
        let t = str_chars(tag);
        proof {
            lemma_tag_index(self@, tag@);
        }
        match self.find(&t) {
            Some(k) => {
                let mut set = self.list.remove(k);
                set.add(rfen);
                self.list.insert(k, set);
                assert(self@ == ip_add(old(self)@, tag@, rfen@));
            },
            None => {
                let set = RfenSet::new(chars_to_string(&t), chars_to_string(&str_chars(rfen)));
                self.list.push(set);
                assert(self@ == ip_add(old(self)@, tag@, rfen@));
            },
        }
    }

    /// Reads one line of a positions file; `tag` is the tag in force.
    pub fn read_line(&mut self, tag: &mut String, line: &str)
        ensures
            (final(self)@, final(tag)@) == read_step((old(self)@, old(tag)@), line@),
    {
        match capture_tag(line) {
            Some(t) => {
                *tag = t;
            },
            None => {},
        }
        match capture_rfen(line) {
            Some(r) => {
                self.add(tag.as_str(), r.as_str());
            },
            None => {},
        }
    }

    /// The sets filed in the lines of a positions file, given as read (or the
    /// error met reading it).
    pub fn read(file: Result<Vec<String>, String>) -> (r: Result<InitialPos, String>)
        ensures
            match file {
                Err(m) => r == Err::<InitialPos, String>(m),
                Ok(lines) => r matches Ok(ip) && ip@ == read_lines(strings_view(lines@), lines@.len()).0,
            },
    {
        match file {
            Err(m) => Err(m),
            Ok(lines) => {
                let mut ip = InitialPos::new();
                let mut tag = chars_to_string(&Vec::new());
                let mut i: usize = 0;
                while i < lines.len()
                    invariant
                        i <= lines@.len(),
                        (ip@, tag@) == read_lines(strings_view(lines@), i as nat),
                    decreases lines.len() - i,
                {
                    ip.read_line(&mut tag, lines[i].as_str());
                    i = i + 1;
                }
                Ok(ip)
            },
        }
    }

    /// The tags, in order.
    pub fn tags(&self) -> (r: Vec<&str>)
        ensures
            strs_view(r@) == self@.map_values(|p: (Seq<char>, Seq<Seq<char>>)| p.0),
    {
        let mut r: Vec<&str> = Vec::new();
        assert(strs_view(r@) =~= self@.map_values(|p: (Seq<char>, Seq<Seq<char>>)| p.0).subrange(0, 0));
        let mut i: usize = 0;
        while i < self.list.len()
            invariant
                i <= self.list.len(),
                strs_view(r@) == self@.map_values(|p: (Seq<char>, Seq<Seq<char>>)| p.0).subrange(0, i as int),
            decreases self.list.len() - i,
        {
            let ghost before = r@;
            r.push(self.list[i].tag.as_str());
            proof {
                let tv = self@.map_values(|p: (Seq<char>, Seq<Seq<char>>)| p.0);
                assert(strs_view(r@) =~= strs_view(before).push(tv[i as int]));
                assert(tv.subrange(0, i + 1) =~= tv.subrange(0, i as int).push(tv[i as int]));
            }
            i = i + 1;
        }
        assert(self@.map_values(|p: (Seq<char>, Seq<Seq<char>>)| p.0).subrange(0, i as int) =~= self@.map_values(|p: (Seq<char>, Seq<Seq<char>>)| p.0));
        r
    }

    /// The set tagged `tag`, if any.
    pub fn at(&self, tag: &str) -> (r: Option<&RfenSet>)
        ensures
            tag_index(self@, tag@) < 0 ==> r is None,
            tag_index(self@, tag@) >= 0 ==> (r matches Some(s) && s@ == self@[tag_index(self@, tag@)]),
    {
        let t = str_chars(tag);
        proof {
            lemma_tag_index(self@, tag@);
        }
        match self.find(&t) {
            Some(k) => {
                assert(self@.len() == self.list.len());
                assert(k as int == tag_index(self@, tag@));
                assert(self@[k as int] == self.list@[k as int]@);
                let r = &self.list[k];
                assert(r@ == self@[tag_index(self@, tag@)]);
                Some(r)
            },
            None => None,
        }
    }

    /// Whether `t` is among `tags`.
    fn tag_listed(t: &Vec<char>, tags: &[&str]) -> (r: bool)
        ensures
            r == strs_view(tags@).contains(t@),
    {
        let mut j: usize = 0;
        while j < tags.len()
            invariant
                j <= tags@.len(),
                forall|k: int| 0 <= k < j ==> strs_view(tags@)[k] != t@,
            decreases tags.len() - j,
        {
            let c = str_chars(tags[j]);
            if same_chars(&c, t) {
                assert(strs_view(tags@)[j as int] == t@);
                return true;
            }
            j = j + 1;
        }
        false
    }

    /// The positions of the sets tagged with one of `tags`, set by set in
    /// the order of the sets.
    pub fn rfens(&self, tags: &[&str]) -> (r: Vec<String>)
        ensures
            strings_view(r@) == select_rfens(self@, strs_view(tags@), self@.len()),
    {
        let mut ret: Vec<String> = Vec::new();
        let mut i: usize = 0;
        while i < self.list.len()
            invariant
                i <= self.list.len(),
                strings_view(ret@) == select_rfens(self@, strs_view(tags@), i as nat),
            decreases self.list.len() - i,
        {
            let t = str_chars(self.list[i].tag.as_str());
            assert(self@[i as int] == self.list@[i as int]@);
            if Self::tag_listed(&t, tags) {
                let set = &self.list[i];
                let ghost base = strings_view(ret@);
                let mut j: usize = 0;
                while j < set.rfens.len()
                    invariant
                        j <= set.rfens.len(),
                        strings_view(ret@) == base + strings_view(set.rfens@).subrange(0, j as int),
                    decreases set.rfens.len() - j,
                {
                    let ghost before = ret@;
                    ret.push(set.rfens[j].clone());
                    proof {
                        let sv = strings_view(set.rfens@);
                        assert(strings_view(ret@) =~= strings_view(before).push(sv[j as int]));
                        assert(sv.subrange(0, j + 1) =~= sv.subrange(0, j as int).push(sv[j as int]));
                    }
                    j = j + 1;
                }
                assert(strings_view(set.rfens@).subrange(0, set.rfens.len() as int) == strings_view(set.rfens@));
            }
            i = i + 1;
        }
        ret
    }

    /// As `rfens`, with the positions of each set without repeats and in
    /// increasing order.
    pub fn rfens_uniq(&self, tags: &[&str]) -> (r: Vec<String>)
        ensures
            strings_view(r@) == select_uniq(self@, strs_view(tags@), self@.len()),
    {
        let mut ret: Vec<String> = Vec::new();
        let mut i: usize = 0;
        while i < self.list.len()
            invariant
                i <= self.list.len(),
                strings_view(ret@) == select_uniq(self@, strs_view(tags@), i as nat),
            decreases self.list.len() - i,
        {
            let t = str_chars(self.list[i].tag.as_str());
            assert(self@[i as int] == self.list@[i as int]@);
            if Self::tag_listed(&t, tags) {
                let set = &self.list[i];
                let mut cs: Vec<Vec<char>> = Vec::new();
                let mut j: usize = 0;
                while j < set.rfens.len()
                    invariant
                        j <= set.rfens.len(),
                        vec_views(cs@) == strings_view(set.rfens@).subrange(0, j as int),
                    decreases set.rfens.len() - j,
                {
                    let ghost before = cs@;
                    cs.push(str_chars(set.rfens[j].as_str()));
                    proof {
                        let sv = strings_view(set.rfens@);
                        assert(vec_views(cs@) =~= vec_views(before).push(sv[j as int]));
                        assert(sv.subrange(0, j + 1) =~= sv.subrange(0, j as int).push(sv[j as int]));
                    }
                    j = j + 1;
                }
                assert(strings_view(set.rfens@).subrange(0, set.rfens.len() as int) == strings_view(set.rfens@));
                let u = uniq_sort_exec(&cs);
                let ghost base = strings_view(ret@);
                let mut k: usize = 0;
                while k < u.len()
                    invariant
                        k <= u.len(),
                        strings_view(ret@) == base + vec_views(u@).subrange(0, k as int),
                    decreases u.len() - k,
                {
                    let ghost before = ret@;
                    ret.push(chars_to_string(&u[k]));
                    proof {
                        let uv = vec_views(u@);
                        assert(strings_view(ret@) =~= strings_view(before).push(uv[k as int]));
                        assert(uv.subrange(0, k + 1) =~= uv.subrange(0, k as int).push(uv[k as int]));
                    }
                    k = k + 1;
                }
                assert(vec_views(u@).subrange(0, u.len() as int) == vec_views(u@));
            }
            i = i + 1;
        }
        ret
    }

    /// The positions of all sets, set by set.
    pub fn rfens_all(&self) -> (r: Vec<String>)
        ensures
            strings_view(r@) == all_rfens(self@, self@.len()),
    {
        let mut ret: Vec<String> = Vec::new();
        let mut i: usize = 0;
        while i < self.list.len()
            invariant
                i <= self.list.len(),
                strings_view(ret@) == all_rfens(self@, i as nat),
            decreases self.list.len() - i,
        {
            let set = &self.list[i];
            assert(self@[i as int] == set@);
            let ghost base = strings_view(ret@);
            let mut j: usize = 0;
            while j < set.rfens.len()
                invariant
                    j <= set.rfens.len(),
                    strings_view(ret@) == base + strings_view(set.rfens@).subrange(0, j as int),
                decreases set.rfens.len() - j,
            {
                let ghost before = ret@;
                ret.push(set.rfens[j].clone());
                proof {
                    let sv = strings_view(set.rfens@);
                    assert(strings_view(ret@) =~= strings_view(before).push(sv[j as int]));
                    assert(sv.subrange(0, j + 1) =~= sv.subrange(0, j as int).push(sv[j as int]));
                }
                j = j + 1;
            }
            assert(strings_view(set.rfens@).subrange(0, set.rfens.len() as int) == strings_view(set.rfens@));
            i = i + 1;
        }
        ret
    }
}

} // verus!
