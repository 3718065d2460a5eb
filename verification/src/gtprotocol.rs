use vstd::prelude::*;
use crate::bits::bit;
use crate::bitboard::{BitBoard, GOTE, SENTE};
use crate::notation::rfen_text;
use crate::text::{
    chars_is, chars_to_string, concat_str, dec, fields, is_digit, lemma_fields_nonempty, push_chars,
    push_dec, split_on, str_chars, str_string, sub_chars,
};

verus! {

/// The commands this engine answers to, one per line.
pub const LIST_COMMANDS: &'static str = "protocol_version\nname\nversion\nlist_commands\nquit\nboardsize\nclear_board\nkomi\nplay\ngenmove\nset_game\nlist_games";

/// Whether the session goes on, was asked to end, or failed.
#[derive(Clone, Copy, Debug, PartialEq, Eq, Structural)]
pub enum Status {
    Play,
    Quit,
    Error,
}

/// What the caller still has to do after a line was read: nothing, send
/// `resp`, search a move for `ban` and hand it to `play_best`, send `resp`
/// and then load the evaluation table at `ev` (reporting a failure with
/// `weights_failed`), or answer with the program's version.
#[derive(Clone, Copy, Debug, PartialEq, Eq, Structural)]
pub enum GtpAction {
    Nothing,
    Reply,
    Think,
    LoadWeights,
    Version,
}

/// A Go Text Protocol session playing Othello.
pub struct GTP {
    pub cmd: String,
    pub resp: String,
    pub status: Status,
    pub emsg: String,
    pub ban: BitBoard,
    pub ev: String,
}

/// Last command, last response, status, error message, board, table path.
pub type GtpView = (Seq<char>, Seq<char>, Status, Seq<char>, BitBoard, Seq<char>);

impl View for GTP {
    /// Last command, last response, status, error message, board, table path.
    type V = GtpView;

    open spec fn view(&self) -> Self::V {
        (self.cmd@, self.resp@, self.status, self.emsg@, self.ban, self.ev@)
    }
}

/// A successful answer.
pub open spec fn ok_resp(id: Seq<char>) -> Seq<char> {
    "= "@ + id + " "@
}

/// A successful answer carrying a value.
pub open spec fn ok_resp1(id: Seq<char>, a: Seq<char>) -> Seq<char> {
    "= "@ + id + " "@ + a
}

/// A failure answer.
pub open spec fn ng_resp(id: Seq<char>) -> Seq<char> {
    "? "@ + id + " "@
}

/// A failure answer carrying a value.
pub open spec fn ng_resp1(id: Seq<char>, a: Seq<char>) -> Seq<char> {
    "? "@ + id + " "@ + a
}

/// The message for a line that cannot be served.
pub open spec fn unknown_msg(line: Seq<char>) -> Seq<char> {
    "error: unknown command ["@ + line + "]."@
}

/// A line of several words starting with a digit carries a command id.
pub open spec fn has_id(elem: Seq<Seq<char>>) -> bool {
    elem.len() != 1 && elem[0].len() > 0 && is_digit(elem[0][0])
}

/// The command id of a line, empty when there is none.
pub open spec fn gtp_id(elem: Seq<Seq<char>>) -> Seq<char> {
    if has_id(elem) {
        elem[0]
    } else {
        Seq::empty()
    }
}

/// Where the command word stands in a line.
pub open spec fn gtp_idx(elem: Seq<Seq<char>>) -> int {
    if has_id(elem) {
        1
    } else {
        0
    }
}

/// The side named by a colour word.
pub open spec fn gtp_color(w: Seq<char>) -> Option<i8> {
    if w == "black"@ {
        Some(SENTE)
    } else if w == "white"@ {
        Some(GOTE)
    } else {
        None
    }
}

/// The low byte of a character's code, as `char as u8` gives it.
pub open spec fn byte_of(c: char) -> int {
    ((c as u32) % 256) as int
}

/// The column of a vertex such as `D5`: `'A'` is 1.
pub open spec fn vertex_x(w: Seq<char>) -> int {
    byte_of(w[0]) - 64
}

/// The row of a vertex such as `D5`: `'1'` is 1.
pub open spec fn vertex_y(w: Seq<char>) -> int {
    byte_of(w[1]) - 48
}

/// The position that `clear_board` sets up (`8/8/8/3aA3/3Aa3/8/8/8 b`).
pub open spec fn cleared() -> BitBoard {
    BitBoard { black: 0x0000_0008_1000_0000u64, white: 0x0000_0010_0800_0000u64, teban: SENTE, pass: 0 }
}

/// The side to move cannot play while `color` was named: either the other
/// side has moves or the board is full.
pub open spec fn turn_blocked(b: BitBoard, color: i8) -> bool {
    color != b.teban && (b.legal_moves().len() != 0 || b.full())
}

/// The position once the named side is to move: the other side passes when
/// it was to move and has nothing to play.
pub open spec fn turn_to(b: BitBoard, color: i8) -> BitBoard {
    if color != b.teban {
        b.after_pass()
    } else {
        b
    }
}

/// `play` reaches the reading of its vertex.
pub open spec fn play_reaches_vertex(b: BitBoard, elem: Seq<Seq<char>>, idx: int) -> bool {
    gtp_color(elem[idx + 1]) is Some && !turn_blocked(b, gtp_color(elem[idx + 1])->0)
}

/// The inputs on which reading a line does not fail: a line of several
/// words does not start with a space, commands taking an argument have it,
/// and a `play` that gets to its vertex names a cell of the board.
pub open spec fn gtp_safe(v: GtpView, line: Seq<char>) -> bool {
    let elem = fields(line, ' ');
    let idx = gtp_idx(elem);
    let cmd = elem[idx];
    line.len() > 0 ==> {
        &&& elem.len() != 1 ==> elem[0].len() > 0
        &&& v.4.teban != i8::MIN
        &&& v.4.pass < i8::MAX
        &&& (cmd == "boardsize"@ || cmd == "genmove"@ || cmd == "play"@ || cmd == "set_game"@)
            ==> elem.len() > idx + 1
        &&& (cmd == "play"@ && play_reaches_vertex(v.4, elem, idx)) ==> {
            &&& elem.len() > idx + 2
            &&& elem[idx + 2].len() >= 2
            &&& 1 <= vertex_x(elem[idx + 2]) <= 8
            &&& 1 <= vertex_y(elem[idx + 2]) <= 8
        }
    }
}

/// What `genmove` does once its colour word is known.
pub open spec fn genmove_branch(v: GtpView, line: Seq<char>, word: Seq<char>, id: Seq<char>) -> (GtpView, GtpAction) {
    let (r0, s0, e0, b0, ev) = (v.1, v.2, v.3, v.4, v.5);
    match gtp_color(word) {
        None => ((line, r0, Status::Error, unknown_msg(line), b0, ev), GtpAction::Nothing),
        Some(color) => if color != b0.teban && b0.legal_moves().len() != 0 {
            ((line, ng_resp(id), Status::Error, "error: turn mismatch."@, b0, ev), GtpAction::Reply)
        } else if color != b0.teban && b0.full() {
            ((line, ng_resp(id), Status::Error, "error: no blank cells to play."@, b0, ev), GtpAction::Reply)
        } else {
            ((line, r0, s0, e0, turn_to(b0, color), ev), GtpAction::Think)
        },
    }
}

/// What `play` does with the words of its line.
pub open spec fn play_branch(v: GtpView, line: Seq<char>, elem: Seq<Seq<char>>, idx: int, id: Seq<char>) -> (GtpView, GtpAction) {
    let (r0, s0, e0, b0, ev) = (v.1, v.2, v.3, v.4, v.5);
    match gtp_color(elem[idx + 1]) {
        None => ((line, r0, Status::Error, unknown_msg(line), b0, ev), GtpAction::Nothing),
        Some(color) => if color != b0.teban && b0.legal_moves().len() != 0 {
            ((line, r0, Status::Error, "error: turn mismatch."@, b0, ev), GtpAction::Nothing)
        } else if color != b0.teban && b0.full() {
            ((line, r0, Status::Error, unknown_msg(line), b0, ev), GtpAction::Nothing)
        } else {
            let b1 = turn_to(b0, color);
            let w = elem[idx + 2];
            let x = vertex_x(w) - 1;
            let y = vertex_y(w) - 1;
            if bit(b1.stones(), x * 8 + y) {
                ((line, ok_resp(id), Status::Error, "stone exists."@ + rfen_text(b1), b1, ev), GtpAction::Reply)
            } else {
                ((line, ok_resp(id), s0, e0, b1.after_move(x, y), ev), GtpAction::Reply)
            }
        },
    }
}

/// What reading one line does: the new session state, what is left to the
/// caller, and the command id of the line.
pub open spec fn gtp_read(v: GtpView, line: Seq<char>) -> (GtpView, GtpAction, Seq<char>) {
    if line.len() == 0 {
        (v, GtpAction::Nothing, Seq::empty())
    } else {
        let elem = fields(line, ' ');
        let id = gtp_id(elem);
        let idx = gtp_idx(elem);
        let cmd = elem[idx];
        let (r0, s0, e0, b0, ev) = (v.1, v.2, v.3, v.4, v.5);
        let failed = ((line, r0, Status::Error, unknown_msg(line), b0, ev), GtpAction::Nothing, id);
        if cmd == "boardsize"@ {
            if elem[idx + 1] != "8"@ {
                ((line, ng_resp(id), Status::Quit, unknown_msg(line), b0, ev), GtpAction::Reply, id)
            } else {
                ((line, ok_resp(id), s0, e0, b0, ev), GtpAction::Reply, id)
            }
        } else if cmd == "clear_board"@ {
            ((line, ok_resp(id), s0, e0, cleared(), ev), GtpAction::Reply, id)
        } else if cmd == "genmove"@ {
            let (nv, a) = genmove_branch(v, line, elem[idx + 1], id);
            (nv, a, id)
        } else if cmd == "komi"@ {
            ((line, ok_resp(id), s0, e0, b0, ev), GtpAction::Reply, id)
        } else if cmd == "list_commands"@ {
            ((line, ok_resp1(id, LIST_COMMANDS@), s0, e0, b0, ev), GtpAction::Reply, id)
        } else if cmd == "list_games"@ {
            ((line, ok_resp1(id, "Othello"@), s0, e0, b0, ev), GtpAction::Reply, id)
        } else if cmd == "name"@ {
            ((line, ok_resp1(id, "ruversi"@), s0, e0, b0, ev), GtpAction::Reply, id)
        } else if cmd == "play"@ {
            let (nv, a) = play_branch(v, line, elem, idx, id);
            (nv, a, id)
        } else if cmd == "protocol_version"@ {
            ((line, ok_resp1(Seq::empty(), "2"@), s0, e0, b0, ev), GtpAction::Reply, id)
        } else if cmd == "quit"@ {
            ((line, ok_resp(id), Status::Quit, e0, b0, ev), GtpAction::Reply, id)
        } else if cmd == "set_game"@ {
            if elem[idx + 1] == "Othello"@ {
                ((line, ok_resp(id), s0, e0, b0, ev), GtpAction::LoadWeights, id)
            } else {
                ((line, ng_resp(id), s0, e0, b0, ev), GtpAction::Reply, id)
            }
        } else if cmd == "version"@ {
            ((line, r0, s0, e0, b0, ev), GtpAction::Version, id)
        } else {
            failed
        }
    }
}

/// The text of a vertex: column letter `A`..`H` (`0` for a pass) and row.
pub open spec fn vertex_text(x: u8, y: u8) -> Seq<char> {
    seq!["0ABCDEFGH"@[x as int]] + dec(y as nat)
}

/// The message for a line that cannot be served.
fn unknown_text(line: &str) -> (r: String)
    ensures
        r@ == unknown_msg(line@),
{
    let mut v = str_chars("error: unknown command [");
    push_chars(&mut v, &str_chars(line));
    push_chars(&mut v, &str_chars("]."));
    chars_to_string(&v)
}

impl GTP {
    pub fn new() -> (r: GTP)
        ensures
            r@ == (Seq::<char>::empty(), Seq::<char>::empty(), Status::Play, Seq::<char>::empty(), r.ban, Seq::<char>::empty()),
            r.ban == (BitBoard { black: 0x0000_0010_0800_0000u64, white: 0x0000_0008_1000_0000u64, teban: SENTE, pass: 0 }),
    {
        let e: Vec<char> = Vec::new();
        GTP {
            cmd: chars_to_string(&e),
            resp: chars_to_string(&e),
            status: Status::Play,
            emsg: chars_to_string(&e),
            ban: BitBoard::new(),
            ev: chars_to_string(&e),
        }
    }

    pub fn is_quit(&self) -> (r: bool)
        ensures
            r == (self.status == Status::Quit),
    {
        match self.status {
            Status::Quit => true,
            _ => false,
        }
    }

    pub fn is_error(&self) -> (r: bool)
        ensures
            r == (self.status == Status::Error),
    {
        match self.status {
            Status::Error => true,
            _ => false,
        }
    }

    /// Reads a vertex such as `D5` into its 1-based column and row.
    pub fn readpos(xypos: &str) -> (r: Option<(u8, u8)>)
        requires
            xypos@.len() >= 2,
            byte_of(xypos@[0]) >= 65,
            byte_of(xypos@[1]) >= 48,
        ensures
            r == Some(((vertex_x(xypos@)) as u8, (vertex_y(xypos@)) as u8)),
    {
        let c0 = xypos.get_char(0);
        let c1 = xypos.get_char(1);
        let b0 = (c0 as u32 % 256) as u8;
        let b1 = (c1 as u32 % 256) as u8;
        let x = b0 - 65 + 1;
        let y = b1 - 48;
        Some((x, y))
    }

    /// Sets the answer `= id `.
    pub fn respond(&mut self, id: &str)
        ensures
            final(self)@ == (old(self)@.0, ok_resp(id@), old(self)@.2, old(self)@.3, old(self)@.4, old(self)@.5),
    {
        let mut v = str_chars("= ");
        push_chars(&mut v, &str_chars(id));
        push_chars(&mut v, &str_chars(" "));
        self.resp = chars_to_string(&v);
    }

    /// Sets the answer `= id arg`.
    pub fn respond1(&mut self, id: &str, arg: &str)
        ensures
            final(self)@ == (old(self)@.0, ok_resp1(id@, arg@), old(self)@.2, old(self)@.3, old(self)@.4, old(self)@.5),
    {
        let mut v = str_chars("= ");
        push_chars(&mut v, &str_chars(id));
        push_chars(&mut v, &str_chars(" "));
        push_chars(&mut v, &str_chars(arg));
        self.resp = chars_to_string(&v);
    }

    /// Sets the answer `? id `.
    pub fn ng_respond(&mut self, id: &str)
        ensures
            final(self)@ == (old(self)@.0, ng_resp(id@), old(self)@.2, old(self)@.3, old(self)@.4, old(self)@.5),
    {
        let mut v = str_chars("? ");
        push_chars(&mut v, &str_chars(id));
        push_chars(&mut v, &str_chars(" "));
        self.resp = chars_to_string(&v);
    }

    /// Sets the answer `? id arg`.
    pub fn ng_respond1(&mut self, id: &str, arg: &str)
        ensures
            final(self)@ == (old(self)@.0, ng_resp1(id@, arg@), old(self)@.2, old(self)@.3, old(self)@.4, old(self)@.5),
    {
        let mut v = str_chars("? ");
        push_chars(&mut v, &str_chars(id));
        push_chars(&mut v, &str_chars(" "));
        push_chars(&mut v, &str_chars(arg));
        self.resp = chars_to_string(&v);
    }

    /// Plays the move found by the search for `genmove`: `(0, 0)` passes and
    /// answers `pass`; otherwise the stone is put at the 1-based `(x, y)` and
    /// the answer is the vertex.
    pub fn play_best(&mut self, id: &str, x: u8, y: u8)
        requires
            (x == 0 && y == 0) || (1 <= x <= 8 && 1 <= y <= 8 && !bit(old(self).ban.stones(), (x - 1) * 8 + (y - 1))),
            old(self).ban.teban != i8::MIN,
            old(self).ban.pass < i8::MAX,
        ensures
            x == 0 && y == 0 ==> final(self)@ == (old(self)@.0, ok_resp1(id@, "pass"@), old(self)@.2, old(self)@.3, old(self).ban.after_pass(), old(self)@.5),
            !(x == 0 && y == 0) ==> final(self)@ == (old(self)@.0, ok_resp1(id@, vertex_text(x, y)), old(self)@.2, old(self)@.3, old(self).ban.after_move(x - 1, y - 1), old(self)@.5),
    {
        if x == 0 && y == 0 {
            self.ban.pass();
            self.respond1(id, "pass");
        } else {
            match self.ban.make_move(x, y) {
                Ok(b) => {
                    self.ban = b;
                },
                Err(_) => {},
            }
            let letters = str_chars("0ABCDEFGH");
            proof {
                reveal_strlit("0ABCDEFGH");
            }
            let mut v: Vec<char> = Vec::new();
            v.push(letters[x as usize]);
            push_dec(&mut v, y as u64);
            let t = chars_to_string(&v);
            assert(v@ == vertex_text(x, y));
            self.respond1(id, t.as_str());
        }
    }

    /// The side named by a colour word.
    fn color_of(w: &Vec<char>) -> (r: Option<i8>)
        ensures
            r == gtp_color(w@),
    {
        if chars_is(w, "black") {
            Some(SENTE)
        } else if chars_is(w, "white") {
            Some(GOTE)
        } else {
            None
        }
    }

    /// `genmove` with its colour word; the last command is already `line`.
    fn genmove_cmd(&mut self, line: &str, word: &Vec<char>, id: &str) -> (r: GtpAction)
        requires
            old(self).cmd@ == line@,
            old(self).ban.teban != i8::MIN,
            old(self).ban.pass < i8::MAX,
        ensures
            (final(self)@, r) == genmove_branch(old(self)@, line@, word@, id@),
    {
        match Self::color_of(word) {
            None => {
                self.status = Status::Error;
                self.emsg = unknown_text(line);
                GtpAction::Nothing
            },
            Some(color) => {
                if color != self.ban.teban {
                    match self.ban.genmove() {
                        Some(a) => {
                            if a.len() == 0 {
                                self.ban.pass();
                            } else {
                                self.status = Status::Error;
                                self.emsg = str_string("error: turn mismatch.");
                                self.ng_respond(id);
                                return GtpAction::Reply;
                            }
                        },
                        None => {
                            self.status = Status::Error;
                            self.emsg = str_string("error: no blank cells to play.");
                            self.ng_respond(id);
                            return GtpAction::Reply;
                        },
                    }
                }
                GtpAction::Think
            },
        }
    }

    /// `play` with the words of its line; the last command is already `line`.
    fn play_cmd(&mut self, line: &str, elem: &Vec<Vec<char>>, idx: usize, id: &str) -> (r: GtpAction)
        requires
            old(self).cmd@ == line@,
            old(self).ban.teban != i8::MIN,
            old(self).ban.pass < i8::MAX,
            idx + 1 < elem.len(),
            play_reaches_vertex(old(self).ban, elem@.map_values(|w: Vec<char>| w@), idx as int) ==> {
                &&& elem.len() > idx + 2
                &&& elem@[idx + 2]@.len() >= 2
                &&& 1 <= vertex_x(elem@[idx + 2]@) <= 8
                &&& 1 <= vertex_y(elem@[idx + 2]@) <= 8
            },
        ensures
            (final(self)@, r) == play_branch(old(self)@, line@, elem@.map_values(|w: Vec<char>| w@), idx as int, id@),
    {
        let ghost ev = elem@.map_values(|w: Vec<char>| w@);
        assert(ev[idx + 1] == elem@[idx + 1]@);
        match Self::color_of(&elem[idx + 1]) {
            None => {
                self.status = Status::Error;
                self.emsg = unknown_text(line);
                GtpAction::Nothing
            },
            Some(color) => {
                if color != self.ban.teban {
                    match self.ban.genmove() {
                        Some(a) => {
                            if a.len() == 0 {
                                self.ban.pass();
                            } else {
                                self.status = Status::Error;
                                self.emsg = str_string("error: turn mismatch.");
                                return GtpAction::Nothing;
                            }
                        },
                        None => {
                            self.status = Status::Error;
                            self.emsg = unknown_text(line);
                            return GtpAction::Nothing;
                        },
                    }
                }
                assert(play_reaches_vertex(old(self).ban, ev, idx as int));
                assert(ev[idx + 2] == elem@[idx + 2]@);
                let w = &elem[idx + 2];
                let b0 = (w[0] as u32 % 256) as u8;
                let b1 = (w[1] as u32 % 256) as u8;
                let x = b0 - 65 + 1;
                let y = b1 - 48;
                match self.ban.make_move(x, y) {
                    Err(m) => {
                        let t = self.ban.to_str();
                        self.status = Status::Error;
                        self.emsg = concat_str(m, t.as_str());
                    },
                    Ok(b) => {
                        self.ban = b;
                    },
                }
                self.respond(id);
                GtpAction::Reply
            },
        }
    }

    /// Whether reading `line` does not fail (see `gtp_safe`).
    #[verifier::rlimit(40)]
    pub fn safe_line(&self, line: &str) -> (r: bool)
        ensures
            r == gtp_safe(self@, line@),
    {
        let lc = str_chars(line);
        if lc.len() == 0 {
            return true;
        }
        proof {
            lemma_fields_nonempty(line@, ' ');
        }
        let elem = split_on(&lc, ' ');
        let ghost ev = elem@.map_values(|w: Vec<char>| w@);
        assert(ev == fields(line@, ' '));
        let n = elem.len();
        if n != 1 && elem[0].len() == 0 {
            assert(ev[0].len() == 0);
            return false;
        }
        if self.ban.teban == i8::MIN || self.ban.pass == i8::MAX {
            return false;
        }
        let mut has = false;
        if n != 1 && elem[0].len() > 0 {
            let c = elem[0][0] as u32;
            has = 48 <= c && c <= 57;
        }
        assert(has == has_id(ev));
        let idx: usize = if has {
            1
        } else {
            0
        };
        let cmd = &elem[idx];
        assert(cmd@ == ev[idx as int]);
        let is_play = chars_is(cmd, "play");
        if chars_is(cmd, "boardsize") || chars_is(cmd, "genmove") || is_play || chars_is(cmd, "set_game") {
            if !(n > idx + 1) {
                return false;
            }
        }
        if is_play {
            assert(elem@[idx + 1]@ == ev[idx + 1]);
            match Self::color_of(&elem[idx + 1]) {
                None => {},
                Some(c) => {
                    let blocked = if c != self.ban.teban {
                        match self.ban.genmove() {
                            Some(v) => v.len() != 0,
                            None => true,
                        }
                    } else {
                        false
                    };
                    if !blocked {
                        if !(n > idx + 2) {
                            return false;
                        }
                        let w = &elem[idx + 2];
                        assert(w@ == ev[idx + 2]);
                        if w.len() < 2 {
                            return false;
                        }
                        let bx = (w[0] as u32 % 256) as i64 - 64;
                        let by = (w[1] as u32 % 256) as i64 - 48;
                        if !(1 <= bx && bx <= 8 && 1 <= by && by <= 8) {
                            return false;
                        }
                    }
                },
            }
        }
        true
    }

    /// Serves one line of the protocol: `[id] command [arguments]`.
    /// The answer is left in `resp`; what needs a search, the evaluation
    /// table or the program's version is left to the caller (see `GtpAction`).
    #[verifier::rlimit(40)]
    pub fn read(&mut self, line: &str) -> (r: (GtpAction, String))
        requires
            gtp_safe(old(self)@, line@),
        ensures
            (final(self)@, r.0, r.1@) == gtp_read(old(self)@, line@),
    {
        let lc = str_chars(line);
        if lc.len() == 0 {
            let e: Vec<char> = Vec::new();
            return (GtpAction::Nothing, chars_to_string(&e));
        }
        proof {
            lemma_fields_nonempty(line@, ' ');
        }
        let elem = split_on(&lc, ' ');
        let ghost ev = elem@.map_values(|w: Vec<char>| w@);
        assert(ev == fields(line@, ' '));
        let n = elem.len();
        let mut has = false;
        if n != 1 && elem[0].len() > 0 {
            let c = elem[0][0] as u32;
            has = 48 <= c && c <= 57;
        }
        assert(has == has_id(ev));
        let idx: usize = if has {
            1
        } else {
            0
        };
        let idv: Vec<char> = if has {
            sub_chars(&elem[0], 0, elem[0].len())
        } else {
            Vec::new()
        };
        let id = chars_to_string(&idv);
        assert(id@ == gtp_id(ev));
        self.cmd = chars_to_string(&lc);
        let cmd = &elem[idx];
        assert(cmd@ == ev[idx as int]);
        let act = if chars_is(cmd, "boardsize") {
            assert(elem@[idx + 1]@ == ev[idx + 1]);
            if !chars_is(&elem[idx + 1], "8") {
                self.status = Status::Quit;
                self.emsg = unknown_text(line);
                self.ng_respond(id.as_str());
            } else {
                self.respond(id.as_str());
            }
            GtpAction::Reply
        } else if chars_is(cmd, "clear_board") {
            self.ban = BitBoard {
                black: 0x0000_0008_1000_0000u64,
                white: 0x0000_0010_0800_0000u64,
                teban: SENTE,
                pass: 0,
            };
            self.respond(id.as_str());
            GtpAction::Reply
        } else if chars_is(cmd, "genmove") {
            assert(elem@[idx + 1]@ == ev[idx + 1]);
            self.genmove_cmd(line, &elem[idx + 1], id.as_str())
        } else if chars_is(cmd, "komi") {
            self.respond(id.as_str());
            GtpAction::Reply
        } else if chars_is(cmd, "list_commands") {
            self.respond1(id.as_str(), LIST_COMMANDS);
            GtpAction::Reply
        } else if chars_is(cmd, "list_games") {
            self.respond1(id.as_str(), "Othello");
            GtpAction::Reply
        } else if chars_is(cmd, "name") {
            self.respond1(id.as_str(), "ruversi");
            GtpAction::Reply
        } else if chars_is(cmd, "play") {
            self.play_cmd(line, &elem, idx, id.as_str())
        } else if chars_is(cmd, "protocol_version") {
            proof {
                reveal_strlit("");
            }
            self.respond1("", "2");
            GtpAction::Reply
        } else if chars_is(cmd, "quit") {
            self.status = Status::Quit;
            self.respond(id.as_str());
            GtpAction::Reply
        } else if chars_is(cmd, "set_game") {
            assert(elem@[idx + 1]@ == ev[idx + 1]);
            if chars_is(&elem[idx + 1], "Othello") {
                self.respond(id.as_str());
                GtpAction::LoadWeights
            } else {
                self.ng_respond(id.as_str());
                GtpAction::Reply
            }
        } else if chars_is(cmd, "version") {
            GtpAction::Version
        } else {
            self.status = Status::Error;
            self.emsg = unknown_text(line);
            GtpAction::Nothing
        };
        (act, id)
    }

    /// Reports that the evaluation table could not be loaded: the session
    /// fails with `emsg` followed by the table's path, and answers `? id `.
    pub fn weights_failed(&mut self, id: &str, emsg: &str)
        ensures
            final(self)@ == (old(self)@.0, ng_resp(id@), Status::Error, emsg@ + " "@ + old(self).ev@, old(self)@.4, old(self)@.5),
    {
        let mut v = str_chars(emsg);
        push_chars(&mut v, &str_chars(" "));
        push_chars(&mut v, &str_chars(self.ev.as_str()));
        self.status = Status::Error;
        self.emsg = chars_to_string(&v);
        self.ng_respond(id);
    }
}

} // verus!
