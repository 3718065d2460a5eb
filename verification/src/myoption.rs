use vstd::prelude::*;
use crate::bitboard::{GOTE, NONE, SENTE};
use crate::edaxrunner::strings_view;
use crate::text::{
    chars_is, chars_to_string, dec_int, fields, has_pair, has_pair_exec, lemma_fields_nonempty, parse_i32,
    parse_i32_exec, parse_i8, parse_i8_exec, parse_uint, parse_uint_exec, push_chars, push_dec_i64,
    split_on, starts_with, starts_with_exec, str_chars, str_string,
};

verus! {

/// What the program was asked to do.
#[derive(Clone, Copy, Debug, PartialEq, Eq, Structural)]
pub enum Mode {
    Unspecified,
    GenKifu,
    Learn,
    Duel,
    DuelExt,
    Gtp,
    Oep,
    Rfen,
    Play,
    Help,
    InitPos,
    Equal,
}

/// Who plays against this program.
#[derive(Clone, Copy, Debug, PartialEq, Eq, Structural)]
pub enum Opponent {
    Unspecified,
    Cui,
    Edax,
    Ruversi,
    Cassio,
}

/// How training samples are fed.
#[derive(Clone, Copy, Debug, PartialEq, Eq, Structural)]
pub enum TrainingMode {
    OneByOne,
    MiniBatch,
}

/// How much the program prints.
#[derive(Clone, Copy, Debug, PartialEq, Eq, Structural)]
pub enum Verbose {
    Silent,
    Normal,
    Verbose,
}

impl Verbose {
    pub fn is_silent(&self) -> (r: bool)
        ensures
            r == (*self == Verbose::Silent),
    {
        match self {
            Verbose::Silent => true,
            _ => false,
        }
    }

    pub fn is_normal(&self) -> (r: bool)
        ensures
            r == (*self == Verbose::Normal),
    {
        match self {
            Verbose::Normal => true,
            _ => false,
        }
    }

    pub fn is_verbose(&self) -> (r: bool)
        ensures
            r == (*self == Verbose::Verbose),
    {
        match self {
            Verbose::Verbose => true,
            _ => false,
        }
    }
}

/// The options given on the command line (see the README's options).
/// `eta` is kept as the text given, which is known to read as a float.
pub struct MyOption {
    pub depth: u8,
    pub eta: Option<String>,
    pub duellv: i8,
    pub edaxconfig: String,
    pub evaltable1: String,
    pub evaltable2: String,
    pub initpos: String,
    pub mode: Mode,
    pub n: Option<usize>,
    pub opponent: Opponent,
    pub repeat: Option<usize>,
    pub rfen: String,
    pub progress: Vec<u32>,
    pub think: String,
    pub outtrain: String,
    pub turn: i8,
    pub trmode: TrainingMode,
    pub minibsize: usize,
    pub verbose: Verbose,
    pub treedump: Option<String>,
}

/// The content of the options.
pub ghost struct OptView {
    pub depth: u8,
    pub eta: Option<Seq<char>>,
    pub duellv: i8,
    pub edaxconfig: Seq<char>,
    pub evaltable1: Seq<char>,
    pub evaltable2: Seq<char>,
    pub initpos: Seq<char>,
    pub mode: Mode,
    pub n: Option<usize>,
    pub opponent: Opponent,
    pub repeat: Option<usize>,
    pub rfen: Seq<char>,
    pub progress: Seq<u32>,
    pub think: Seq<char>,
    pub outtrain: Seq<char>,
    pub turn: i8,
    pub trmode: TrainingMode,
    pub minibsize: usize,
    pub verbose: Verbose,
    pub treedump: Option<Seq<char>>,
}

/// The text of an optional string.
pub open spec fn opt_text(s: Option<String>) -> Option<Seq<char>> {
    match s {
        Some(t) => Some(t@),
        None => None,
    }
}

impl View for MyOption {
    type V = OptView;

    open spec fn view(&self) -> OptView {
        OptView {
            depth: self.depth,
            eta: opt_text(self.eta),
            duellv: self.duellv,
            edaxconfig: self.edaxconfig@,
            evaltable1: self.evaltable1@,
            evaltable2: self.evaltable2@,
            initpos: self.initpos@,
            mode: self.mode,
            n: self.n,
            opponent: self.opponent,
            repeat: self.repeat,
            rfen: self.rfen@,
            progress: self.progress@,
            think: self.think@,
            outtrain: self.outtrain@,
            turn: self.turn,
            trmode: self.trmode,
            minibsize: self.minibsize,
            verbose: self.verbose,
            treedump: opt_text(self.treedump),
        }
    }
}

/// The options when nothing is given.
pub open spec fn opt_default() -> OptView {
    OptView {
        depth: 7,
        eta: None,
        duellv: 5,
        edaxconfig: Seq::empty(),
        evaltable1: Seq::empty(),
        evaltable2: Seq::empty(),
        initpos: Seq::empty(),
        mode: Mode::Unspecified,
        n: None,
        opponent: Opponent::Unspecified,
        repeat: None,
        rfen: Seq::empty(),
        progress: Seq::empty(),
        think: Seq::empty(),
        outtrain: Seq::empty(),
        turn: NONE,
        trmode: TrainingMode::OneByOne,
        minibsize: 128,
        verbose: Verbose::Normal,
        treedump: None,
    }
}

/// The state of reading the arguments: the options so far, the option
/// waiting for its value, how many arguments to skip, the error met, whether
/// reading broke down (an option given while another waits for its value, or
/// a `--progress` list that is not all numbers), and the lines printed.
pub ghost struct ParseState {
    pub opt: OptView,
    pub old: Seq<char>,
    pub skip: int,
    pub err: Option<Seq<char>>,
    pub stuck: bool,
    pub printed: Seq<Seq<char>>,
}

/// The level given after `--duel` or `--duelext`: a positive `i8`.
pub open spec fn level_after(args: Seq<Seq<char>>, i: int) -> Option<i8> {
    if i + 1 < args.len() {
        match parse_i8(args[i + 1]) {
            Some(l) => if l > 0 {
                Some(l)
            } else {
                None
            },
            None => None,
        }
    } else {
        None
    }
}

/// The options that take the next argument as their value and change
/// nothing else by themselves.
pub open spec fn plain_valued(e: Seq<char>) -> bool {
    e == "--depth"@ || e == "--Edconf"@ || e == "--eta"@ || e == "--ev1"@ || e == "--ev2"@ || e == "--progress"@
        || e == "--Ruconf"@ || e == "--repeat"@ || e == "--trainout"@
}

/// The opponent once a game against a person is asked for.
pub open spec fn play_opponent(o: Opponent) -> Opponent {
    if o == Opponent::Unspecified {
        Opponent::Cui
    } else {
        o
    }
}

/// What an argument starting with `--` (the `i`-th) does: the new options,
/// the option now waiting for a value (or nothing), and how many arguments
/// are consumed with it.
pub open spec fn opt_flag(o: OptView, e: Seq<char>, args: Seq<Seq<char>>, i: int) -> (OptView, Seq<char>, int) {
    let none = Seq::<char>::empty();
    if e == "--genkifu"@ {
        (OptView { mode: Mode::GenKifu, ..o }, none, 0)
    } else if e == "--learn"@ {
        (OptView { mode: Mode::Learn, ..o }, none, 0)
    } else if e == "--duel"@ || e == "--duelext"@ {
        let m = if e == "--duel"@ {
            Mode::Duel
        } else {
            Mode::DuelExt
        };
        match level_after(args, i) {
            Some(l) => (OptView { mode: m, duellv: l, ..o }, none, 1),
            None => (OptView { mode: m, ..o }, none, 0),
        }
    } else if e == "--play"@ {
        (OptView { mode: Mode::Play, opponent: play_opponent(o.opponent), ..o }, none, 0)
    } else if e == "--playb"@ {
        (OptView { mode: Mode::Play, turn: SENTE, opponent: play_opponent(o.opponent), ..o }, none, 0)
    } else if e == "--playw"@ {
        (OptView { mode: Mode::Play, turn: GOTE, opponent: play_opponent(o.opponent), ..o }, none, 0)
    } else if e == "--rfen"@ {
        (OptView { mode: Mode::Rfen, ..o }, e, 0)
    } else if plain_valued(e) {
        (o, e, 0)
    } else if e == "--help"@ {
        (OptView { mode: Mode::Help, ..o }, none, 0)
    } else if e == "--initpos"@ {
        (OptView { mode: Mode::InitPos, ..o }, e, 0)
    } else if e == "--equal"@ {
        (OptView { mode: Mode::Equal, ..o }, none, 0)
    } else if e == "--thinkab"@ {
        (OptView { think: "ab"@, ..o }, none, 0)
    } else if e == "--thinkall"@ {
        (OptView { think: "all"@, ..o }, none, 0)
    } else if e == "--onebyone"@ {
        (OptView { trmode: TrainingMode::OneByOne, ..o }, none, 0)
    } else if e == "--minibatch"@ {
        (OptView { trmode: TrainingMode::MiniBatch, ..o }, e, 0)
    } else if e == "--Edax"@ {
        (OptView { opponent: Opponent::Edax, ..o }, none, 0)
    } else if e == "--Ruversi"@ {
        (OptView { opponent: Opponent::Ruversi, ..o }, none, 0)
    } else if e == "--Cassio"@ {
        (OptView { opponent: Opponent::Cassio, ..o }, none, 0)
    } else if e == "--silent"@ {
        (OptView { verbose: Verbose::Silent, ..o }, none, 0)
    } else if e == "--verbose"@ {
        (OptView { verbose: Verbose::Verbose, ..o }, none, 0)
    } else if e == "--gtp"@ {
        (OptView { mode: Mode::Gtp, ..o }, none, 0)
    } else if e == "--oep"@ {
        (OptView { mode: Mode::Oep, ..o }, none, 0)
    } else if e == "--treedump"@ {
        (OptView { treedump: Some("treeinfo.puml"@), ..o }, e, 0)
    } else {
        (o, none, 0)
    }
}

/// Every piece of a `--progress` list is a `u32`.
pub open spec fn progress_ok(e: Seq<char>) -> bool {
    forall|k: int| 0 <= k < fields(e, ',').len() ==> parse_uint(#[trigger] fields(e, ',')[k], 0xffff_ffff) is Some
}

/// The numbers of a `--progress` list.
pub open spec fn progress_values(e: Seq<char>) -> Seq<u32> {
    fields(e, ',').map_values(|p: Seq<char>| parse_uint(p, 0xffff_ffff)->0 as u32)
}

/// The message of the error of `str::parse::<i32>` on `s` (empty when `s`
/// reads as an `i32`).
pub uninterp spec fn i32_parse_error(s: Seq<char>) -> Seq<char>;

/// The message of the error that `str::parse::<i32>` reports on `s`, as its
/// `Display` writes it; named by `i32_parse_error`.
#[verifier::external_body]
fn i32_error_text(s: &str) -> (r: String)
    ensures
        r@ == i32_parse_error(s@),
{
    match s.parse::<i32>() {
        Err(e) => e.to_string(),
        Ok(_) => String::new(),
    }
}

/// What an argument that does not start with `--` does, given whether it
/// names an existing path and whether it reads as a float.
pub open spec fn opt_value(st: ParseState, e: Seq<char>, found: bool, float: bool) -> ParseState {
    let o = st.opt;
    let old = st.old;
    let none = Seq::<char>::empty();
    let bad = "invalid option: "@ + old + " "@ + e;
    let missing = "failed find \""@ + e + "\"."@;
    if old.len() == 0 && starts_with(e, "-"@) {
        if has_pair(e, '-', 'N') {
            match parse_uint(fields(e, 'N')[1], usize::MAX as int) {
                Some(n) => ParseState { opt: OptView { n: Some(n as usize), ..o }, ..st },
                None => ParseState { err: Some("invalid option: "@ + e), ..st },
            }
        } else {
            st
        }
    } else if old == "--repeat"@ {
        match parse_uint(e, usize::MAX as int) {
            Some(v) => ParseState { opt: OptView { repeat: Some(v as usize), ..o }, old: none, ..st },
            None => ParseState { err: Some(bad), ..st },
        }
    } else if old == "--progress"@ {
        if progress_ok(e) {
            ParseState { opt: OptView { progress: progress_values(e), ..o }, old: none, ..st }
        } else {
            ParseState { stuck: true, ..st }
        }
    } else if old == "--minibatch"@ {
        match parse_uint(e, usize::MAX as int) {
            Some(v) => ParseState { opt: OptView { minibsize: v as usize, ..o }, old: none, ..st },
            None => ParseState { err: Some(bad), ..st },
        }
    } else if old == "--Edconf"@ || old == "--Ruconf"@ {
        if found {
            ParseState { opt: OptView { edaxconfig: e, ..o }, old: none, ..st }
        } else {
            ParseState { err: Some(missing), ..st }
        }
    } else if old == "--eta"@ {
        if float {
            ParseState { opt: OptView { eta: Some(e), ..o }, old: none, ..st }
        } else {
            ParseState { err: Some(bad), ..st }
        }
    } else if old == "--ev1"@ {
        if found || e == "RANDOM"@ {
            ParseState { opt: OptView { evaltable1: e, ..o }, old: none, ..st }
        } else {
            ParseState { err: Some(missing), ..st }
        }
    } else if old == "--ev2"@ {
        if found || e == "RANDOM"@ {
            ParseState { opt: OptView { evaltable2: e, ..o }, old: none, ..st }
        } else {
            ParseState { err: Some(missing), ..st }
        }
    } else if old == "--rfen"@ {
        ParseState { opt: OptView { rfen: e, ..o }, old: none, ..st }
    } else if old == "--depth"@ {
        match parse_i32(e) {
            Some(dep) => if dep <= 0 || dep > 60 {
                ParseState { err: Some("depth "@ + dec_int(dep) + " is invalid number."@), ..st }
            } else {
                ParseState { opt: OptView { depth: dep as u8, ..o }, old: none, ..st }
            },
            None => ParseState {
                err: Some("failed read "@ + old + " "@ + e + ". ("@ + i32_parse_error(e) + ")"@),
                ..st
            },
        }
    } else if old == "--initpos"@ {
        ParseState { opt: OptView { initpos: e, ..o }, old: none, ..st }
    } else if old == "--trainout"@ {
        ParseState { opt: OptView { outtrain: e, ..o }, old: none, ..st }
    } else if old == "--treedump"@ {
        ParseState { opt: OptView { treedump: Some(e), ..o }, old: none, ..st }
    } else {
        ParseState { printed: st.printed.push("unknown option: "@ + e), ..st }
    }
}

/// What the `i`-th argument does to the state.
pub open spec fn opt_step(
    st: ParseState,
    args: Seq<Seq<char>>,
    found: Seq<bool>,
    floats: Seq<bool>,
    i: int,
) -> ParseState {
    if st.err is Some || st.stuck {
        st
    } else if st.skip > 0 {
        ParseState { skip: st.skip - 1, ..st }
    } else {
        let e = args[i];
        if starts_with(e, "--"@) {
            if st.old.len() > 0 {
                ParseState { stuck: true, ..st }
            } else {
                let (o, old, skip) = opt_flag(st.opt, e, args, i);
                ParseState { opt: o, old, skip, ..st }
            }
        } else {
            opt_value(st, e, found[i], floats[i])
        }
    }
}

/// The state after the arguments `1..n` (the first is the program's name).
pub open spec fn opt_parse(args: Seq<Seq<char>>, found: Seq<bool>, floats: Seq<bool>, n: nat) -> ParseState
    decreases n,
{
    if n <= 1 {
        ParseState { opt: opt_default(), old: Seq::empty(), skip: 0, err: None, stuck: false, printed: Seq::empty() }
    } else {
        opt_step(opt_parse(args, found, floats, (n - 1) as nat), args, found, floats, n - 1)
    }
}

/// A text holding the separator splits in at least two pieces.
proof fn lemma_fields_two(s: Seq<char>, sep: char, k: int)
    requires
        0 <= k < s.len(),
        s[k] == sep,
    ensures
        fields(s, sep).len() >= 2,
    decreases s.len(),
{
    lemma_fields_nonempty(s.drop_last(), sep);
    if s.last() != sep {
        assert(s.drop_last()[k] == sep);
        lemma_fields_two(s.drop_last(), sep, k);
    }
}

/// Once reading has failed or broken down, the rest of the arguments change nothing.
proof fn lemma_parse_frozen(args: Seq<Seq<char>>, found: Seq<bool>, floats: Seq<bool>, k: nat, n: nat)
    requires
        1 <= k <= n,
        opt_parse(args, found, floats, k).err is Some || opt_parse(args, found, floats, k).stuck,
    ensures
        opt_parse(args, found, floats, n) == opt_parse(args, found, floats, k),
    decreases n - k,
{
    if n > k {
        lemma_parse_frozen(args, found, floats, k, (n - 1) as nat);
    }
}

/// The text `a + b`.
fn text2(a: &str, b: &Vec<char>) -> (r: String)
    ensures
        r@ == a@ + b@,
{
    let mut v = str_chars(a);
    push_chars(&mut v, b);
    chars_to_string(&v)
}

impl MyOption {
    /// The options when nothing is given.
    fn defaults() -> (r: MyOption)
        ensures
            r@ == opt_default(),
    {
        let e: Vec<char> = Vec::new();
        let r = MyOption {
            depth: 7,
            eta: None,
            duellv: 5,
            edaxconfig: chars_to_string(&e),
            evaltable1: chars_to_string(&e),
            evaltable2: chars_to_string(&e),
            initpos: chars_to_string(&e),
            mode: Mode::Unspecified,
            n: None,
            opponent: Opponent::Unspecified,
            repeat: None,
            rfen: chars_to_string(&e),
            progress: Vec::new(),
            think: chars_to_string(&e),
            outtrain: chars_to_string(&e),
            turn: NONE,
            trmode: TrainingMode::OneByOne,
            minibsize: 128,
            verbose: Verbose::Normal,
            treedump: None,
        };
        assert(r.progress@ == Seq::<u32>::empty());
        r
    }

    /// The opponent once a game against a person is asked for.
    fn play_with(o: Opponent) -> (r: Opponent)
        ensures
            r == play_opponent(o),
    {
        match o {
            Opponent::Unspecified => Opponent::Cui,
            _ => o,
        }
    }

    /// An argument starting with `--`: returns the option now waiting for a
    /// value and how many arguments it consumes.
    #[verifier::rlimit(40)]
    fn flag(&mut self, e: &Vec<char>, args: &Vec<String>, i: usize) -> (r: (Vec<char>, usize))
        requires
            i < args.len(),
        ensures
            (final(self)@, r.0@, r.1 as int) == opt_flag(old(self)@, e@, strings_view(args@), i as int),
    {
        let ghost av = strings_view(args@);
        let none: Vec<char> = Vec::new();
        if chars_is(e, "--genkifu") {
            self.mode = Mode::GenKifu;
        } else if chars_is(e, "--learn") {
            self.mode = Mode::Learn;
        } else if chars_is(e, "--duel") || chars_is(e, "--duelext") {
            self.mode = if chars_is(e, "--duel") {
                Mode::Duel
            } else {
                Mode::DuelExt
            };
            if i + 1 < args.len() {
                assert(av[i + 1] == args@[i + 1]@);
                match parse_i8_exec(&str_chars(args[i + 1].as_str())) {
                    Some(level) => {
                        if level > 0 {
                            self.duellv = level;
                            return (none, 1);
                        }
                    },
                    None => {},
                }
            }
        } else if chars_is(e, "--play") {
            self.mode = Mode::Play;
            self.opponent = Self::play_with(self.opponent);
        } else if chars_is(e, "--playb") {
            self.mode = Mode::Play;
            self.turn = SENTE;
            self.opponent = Self::play_with(self.opponent);
        } else if chars_is(e, "--playw") {
            self.mode = Mode::Play;
            self.turn = GOTE;
            self.opponent = Self::play_with(self.opponent);
        } else if chars_is(e, "--rfen") {
            self.mode = Mode::Rfen;
            return (crate::text::sub_chars(e, 0, e.len()), 0);
        } else if chars_is(e, "--depth") || chars_is(e, "--Edconf") || chars_is(e, "--eta") || chars_is(e, "--ev1")
            || chars_is(e, "--ev2") || chars_is(e, "--progress") || chars_is(e, "--Ruconf") || chars_is(
            e,
            "--repeat",
        ) || chars_is(e, "--trainout") {
            return (crate::text::sub_chars(e, 0, e.len()), 0);
        } else if chars_is(e, "--help") {
            self.mode = Mode::Help;
        } else if chars_is(e, "--initpos") {
            self.mode = Mode::InitPos;
            return (crate::text::sub_chars(e, 0, e.len()), 0);
        } else if chars_is(e, "--equal") {
            self.mode = Mode::Equal;
        } else if chars_is(e, "--thinkab") {
            self.think = str_string("ab");
        } else if chars_is(e, "--thinkall") {
            self.think = str_string("all");
        } else if chars_is(e, "--onebyone") {
            self.trmode = TrainingMode::OneByOne;
        } else if chars_is(e, "--minibatch") {
            self.trmode = TrainingMode::MiniBatch;
            return (crate::text::sub_chars(e, 0, e.len()), 0);
        } else if chars_is(e, "--Edax") {
            self.opponent = Opponent::Edax;
        } else if chars_is(e, "--Ruversi") {
            self.opponent = Opponent::Ruversi;
        } else if chars_is(e, "--Cassio") {
            self.opponent = Opponent::Cassio;
        } else if chars_is(e, "--silent") {
            self.verbose = Verbose::Silent;
        } else if chars_is(e, "--verbose") {
            self.verbose = Verbose::Verbose;
        } else if chars_is(e, "--gtp") {
            self.mode = Mode::Gtp;
        } else if chars_is(e, "--oep") {
            self.mode = Mode::Oep;
        } else if chars_is(e, "--treedump") {
            self.treedump = Some(str_string("treeinfo.puml"));
            return (crate::text::sub_chars(e, 0, e.len()), 0);
        }
        (none, 0)
    }

    /// An argument that does not start with `--` (its text is `es`), given
    /// whether it names an existing path and whether it reads as a float:
    /// returns the error met, if any, and the line to print, if any.
    #[verifier::rlimit(60)]
    fn value_arg(
        &mut self,
        oldv: &mut Vec<char>,
        es: &str,
        found: bool,
        float: bool,
        Ghost(st): Ghost<ParseState>,
    ) -> (r: (Option<String>, Option<String>))
        requires
            st.opt == old(self)@,
            st.old == old(oldv)@,
            st.err is None,
            !st.stuck,
            !opt_value(st, es@, found, float).stuck,
        ensures
            final(self)@ == opt_value(st, es@, found, float).opt,
            final(oldv)@ == opt_value(st, es@, found, float).old,
            opt_text(r.0) == opt_value(st, es@, found, float).err,
            r.1 is None ==> opt_value(st, es@, found, float).printed == st.printed,
            r.1 matches Some(x) ==> opt_value(st, es@, found, float).printed == st.printed.push(x@),
            opt_value(st, es@, found, float).skip == st.skip,
            !opt_value(st, es@, found, float).stuck,
    {
        let e = str_chars(es);
        let umax: u64 = usize::MAX as u64;
        assert(umax as int == usize::MAX as int);
        let mut bad = text2("invalid option: ", oldv);
        bad = text2(bad.as_str(), &str_chars(" "));
        bad = text2(bad.as_str(), &e);
        let mut missing = text2("failed find \"", &e);
        missing = text2(missing.as_str(), &str_chars("\"."));
        if oldv.len() == 0 && starts_with_exec(&e, &str_chars("-")) {
            if has_pair_exec(&e, '-', 'N') {
                proof {
                    let k = choose|k: int| 0 <= k && k + 1 < e@.len() && e@[k] == '-' && #[trigger] e@[k + 1] == 'N';
                    lemma_fields_two(e@, 'N', k + 1);
                }
                let parts = split_on(&e, 'N');
                assert(parts@[1]@ == fields(e@, 'N')[1]);
                match parse_uint_exec(&parts[1], umax) {
                    Some(n) => {
                        self.n = Some(n as usize);
                    },
                    None => {
                        return (Some(text2("invalid option: ", &e)), None);
                    },
                }
            }
            return (None, None);
        }
        if chars_is(oldv, "--repeat") {
            match parse_uint_exec(&e, umax) {
                Some(v) => {
                    self.repeat = Some(v as usize);
                },
                None => {
                    return (Some(bad), None);
                },
            }
        } else if chars_is(oldv, "--progress") {
            let parts = split_on(&e, ',');
            let mut vals: Vec<u32> = Vec::new();
            let mut k: usize = 0;
            while k < parts.len()
                invariant
                    k <= parts@.len(),
                    parts@.len() == fields(e@, ',').len(),
                    forall|j: int| 0 <= j < parts@.len() ==> #[trigger] parts@[j]@ == fields(e@, ',')[j],
                    progress_ok(e@),
                    vals@ == progress_values(e@).subrange(0, k as int),
                decreases parts.len() - k,
            {
                assert(parts@[k as int]@ == fields(e@, ',')[k as int]);
                let ghost pv = parse_uint(fields(e@, ',')[k as int], 0xffff_ffff);
                assert(pv is Some);
                let v = match parse_uint_exec(&parts[k], 0xffff_ffff) {
                    Some(v) => v,
                    None => 0,
                };
                assert(v as int == pv->0);
                assert(progress_values(e@)[k as int] == v as u32);
                vals.push(v as u32);
                assert(progress_values(e@).subrange(0, k + 1) =~= progress_values(e@).subrange(0, k as int).push(
                    v as u32,
                ));
                k = k + 1;
            }
            assert(progress_values(e@).subrange(0, parts@.len() as int) == progress_values(e@));
            self.progress = vals;
        } else if chars_is(oldv, "--minibatch") {
            match parse_uint_exec(&e, umax) {
                Some(v) => {
                    self.minibsize = v as usize;
                },
                None => {
                    return (Some(bad), None);
                },
            }
        } else if chars_is(oldv, "--Edconf") || chars_is(oldv, "--Ruconf") {
            if found {
                self.edaxconfig = str_string(es);
            } else {
                return (Some(missing), None);
            }
        } else if chars_is(oldv, "--eta") {
            if float {
                self.eta = Some(str_string(es));
            } else {
                return (Some(bad), None);
            }
        } else if chars_is(oldv, "--ev1") {
            if found || chars_is(&e, "RANDOM") {
                self.evaltable1 = str_string(es);
            } else {
                return (Some(missing), None);
            }
        } else if chars_is(oldv, "--ev2") {
            if found || chars_is(&e, "RANDOM") {
                self.evaltable2 = str_string(es);
            } else {
                return (Some(missing), None);
            }
        } else if chars_is(oldv, "--rfen") {
            self.rfen = str_string(es);
        } else if chars_is(oldv, "--depth") {
            match parse_i32_exec(&e) {
                Some(dep) => {
                    if dep <= 0 || dep > 60 {
                        let mut m = str_chars("depth ");
                        push_dec_i64(&mut m, dep as i64);
                        push_chars(&mut m, &str_chars(" is invalid number."));
                        return (Some(chars_to_string(&m)), None);
                    }
                    self.depth = dep as u8;
                },
                None => {
                    let mut m = str_chars("failed read ");
                    push_chars(&mut m, oldv);
                    push_chars(&mut m, &str_chars(" "));
                    push_chars(&mut m, &e);
                    push_chars(&mut m, &str_chars(". ("));
                    push_chars(&mut m, &str_chars(i32_error_text(es).as_str()));
                    push_chars(&mut m, &str_chars(")"));
                    return (Some(chars_to_string(&m)), None);
                },
            }
        } else if chars_is(oldv, "--initpos") {
            self.initpos = str_string(es);
        } else if chars_is(oldv, "--trainout") {
            self.outtrain = str_string(es);
        } else if chars_is(oldv, "--treedump") {
            self.treedump = Some(str_string(es));
        } else {
            return (None, Some(text2("unknown option: ", &e)));
        }
        *oldv = Vec::new();
        (None, None)
    }

    /// Reads the command line `args` (the first being the program's name).
    /// `found[i]` tells whether `args[i]` names an existing path and
    /// `floats[i]` whether it reads as an `f32`. Gives the options or the
    /// first error met, and the lines to print about unknown arguments;
    /// `None` when reading breaks down (an option given while another waits
    /// for its value, or a `--progress` list that is not all numbers).
    pub fn new(args: &Vec<String>, found: &Vec<bool>, floats: &Vec<bool>) -> (r: Option<(Result<MyOption, String>, Vec<String>)>)
        requires
            found@.len() == args@.len(),
            floats@.len() == args@.len(),
        ensures
            r is None <==> opt_parse(strings_view(args@), found@, floats@, args@.len()).stuck,
            r matches Some((res, printed)) ==> {
                &&& strings_view(printed@) == opt_parse(strings_view(args@), found@, floats@, args@.len()).printed
                &&& match opt_parse(strings_view(args@), found@, floats@, args@.len()).err {
                    Some(m) => res matches Err(x) && x@ == m,
                    None => res matches Ok(o) && o@ == opt_parse(strings_view(args@), found@, floats@, args@.len()).opt,
                }
            },
    {
        let ghost av = strings_view(args@);
        let mut o = Self::defaults();
        let mut oldv: Vec<char> = Vec::new();
        let mut skip: usize = 0;
        let mut printed: Vec<String> = Vec::new();
        if args.len() == 0 {
            return Some((Ok(o), printed));
        }
        let mut i: usize = 1;
        assert(strings_view(printed@) == Seq::<Seq<char>>::empty());
        while i < args.len()
            invariant
                1 <= i <= args@.len(),
                av == strings_view(args@),
                found@.len() == args@.len(),
                floats@.len() == args@.len(),
                opt_parse(av, found@, floats@, i as nat) == (ParseState {
                    opt: o@,
                    old: oldv@,
                    skip: skip as int,
                    err: None,
                    stuck: false,
                    printed: strings_view(printed@),
                }),
                skip <= 1,
            decreases args.len() - i,
        {
            let ghost st = opt_parse(av, found@, floats@, i as nat);
            assert(opt_parse(av, found@, floats@, (i + 1) as nat) == opt_step(st, av, found@, floats@, i as int));
            if skip > 0 {
                skip = skip - 1;
                i = i + 1;
                continue;
            }
            let es = args[i].as_str();
            assert(av[i as int] == es@);
            let e = str_chars(es);
            if starts_with_exec(&e, &str_chars("--")) {
                if oldv.len() > 0 {
                    proof {
                        lemma_parse_frozen(av, found@, floats@, (i + 1) as nat, args@.len());
                    }
                    return None;
                }
                let (nold, nskip) = o.flag(&e, args, i);
                oldv = nold;
                skip = nskip;
            } else {
                if chars_is(&oldv, "--progress") && !Self::progress_fits(&e) {
                    proof {
                        reveal_strlit("--progress");
                        reveal_strlit("--repeat");
                        reveal_strlit("--");
                        assert(oldv@[2] != "--repeat"@[2]);
                        assert(opt_parse(av, found@, floats@, (i + 1) as nat).stuck);
                        lemma_parse_frozen(av, found@, floats@, (i + 1) as nat, args@.len());
                    }
                    return None;
                }
                let ghost before = strings_view(printed@);
                let (err, pr) = o.value_arg(&mut oldv, es, found[i], floats[i], Ghost(st));
                match pr {
                    Some(x) => {
                        printed.push(x);
                        assert(strings_view(printed@) == before.push(x@));
                    },
                    None => {},
                }
                match err {
                    Some(m) => {
                        proof {
                            lemma_parse_frozen(av, found@, floats@, (i + 1) as nat, args@.len());
                        }
                        return Some((Err(m), printed));
                    },
                    None => {},
                }
            }
            i = i + 1;
        }
        Some((Ok(o), printed))
    }

    /// Every piece of a `--progress` list reads as a `u32`.
    fn progress_fits(e: &Vec<char>) -> (r: bool)
        ensures
            r == progress_ok(e@),
    {
        let parts = split_on(e, ',');
        let mut k: usize = 0;
        while k < parts.len()
            invariant
                k <= parts@.len(),
                parts@.len() == fields(e@, ',').len(),
                forall|j: int| 0 <= j < parts@.len() ==> #[trigger] parts@[j]@ == fields(e@, ',')[j],
                forall|j: int| 0 <= j < k ==> parse_uint(#[trigger] fields(e@, ',')[j], 0xffff_ffff) is Some,
            decreases parts.len() - k,
        {
            assert(parts@[k as int]@ == fields(e@, ',')[k as int]);
            if parse_uint_exec(&parts[k], 0xffff_ffff).is_none() {
                return false;
            }
            k = k + 1;
        }
        true
    }
}

/// Reading `--playw` asks for a game against a person who plays white, and
/// `--playb` for one where the person plays black: right after either (given
/// while reading goes on and no option waits for its value) the mode is a game
/// and the person's side is the one named.
pub proof fn lemma_play_sides(args: Seq<Seq<char>>, found: Seq<bool>, floats: Seq<bool>, n: nat)
    requires
        2 <= n <= args.len(),
        opt_parse(args, found, floats, (n - 1) as nat).err is None,
        !opt_parse(args, found, floats, (n - 1) as nat).stuck,
        opt_parse(args, found, floats, (n - 1) as nat).skip == 0,
        opt_parse(args, found, floats, (n - 1) as nat).old.len() == 0,
    ensures
        args[n - 1] == "--playw"@ ==> opt_parse(args, found, floats, n).opt.mode == Mode::Play
            && opt_parse(args, found, floats, n).opt.turn == GOTE,
        args[n - 1] == "--playb"@ ==> opt_parse(args, found, floats, n).opt.mode == Mode::Play
            && opt_parse(args, found, floats, n).opt.turn == SENTE,
{
    reveal_strlit("--");
    reveal_strlit("--genkifu");
    reveal_strlit("--learn");
    reveal_strlit("--duel");
    reveal_strlit("--duelext");
    reveal_strlit("--play");
    reveal_strlit("--playb");
    reveal_strlit("--playw");
    let e = args[n - 1];
    if e == "--playw"@ || e == "--playb"@ {
        assert(e.subrange(0, 2) =~= "--"@);
        assert(e != "--genkifu"@ && e != "--learn"@ && e != "--duel"@ && e != "--duelext"@ && e != "--play"@);
        assert(e == "--playw"@ ==> e != "--playb"@);
    }
}

/// A command line whose only option is `--playw` gives a game in which the
/// person plays white; with `--playb` only, black.
pub proof fn lemma_only_play_side(args: Seq<Seq<char>>, found: Seq<bool>, floats: Seq<bool>)
    requires
        args.len() == 2,
    ensures
        args[1] == "--playw"@ ==> opt_parse(args, found, floats, 2).opt.turn == GOTE,
        args[1] == "--playb"@ ==> opt_parse(args, found, floats, 2).opt.turn == SENTE,
{
    lemma_play_sides(args, found, floats, 2);
}

} // verus!
