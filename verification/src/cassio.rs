use vstd::prelude::*;
use crate::text::{chars_to_string, concat_str, starts_with, starts_with_exec, str_chars, str_string, sub_chars};

verus! {

/// Every command of the protocol starts with this.
pub const HEADER: &'static str = "ENGINE-PROTOCOL ";

/// Which search a command asks for.
#[derive(Clone, Copy, Debug, PartialEq, Eq, Structural)]
pub enum SearchKind {
    NoSearch,
    Midgame,
    Endgame,
}

/// What serving one command leaves to the caller: lines to print, lines to
/// log, a search to start on `body` (the command without its header), and
/// whether the session ends.
pub struct OepStep {
    pub print: Vec<String>,
    pub log: Vec<String>,
    pub search: SearchKind,
    pub body: String,
    pub quit: bool,
}

/// An engine speaking the Othello Engine Protocol; `cmd` is the last command.
pub struct OthelloEngineProtocol {
    pub cmd: String,
}

/// The texts of a list of strings.
pub open spec fn texts(v: Seq<String>) -> Seq<Seq<char>> {
    v.map_values(|s: String| s@)
}

/// `ok.` while a search runs, `ready.` otherwise.
pub open spec fn state_line(running: bool) -> Seq<char> {
    if running {
        "ok."@
    } else {
        "ready."@
    }
}

/// What serving `cmd` prints, logs, starts, and whether it ends the
/// session; `running` tells whether a search is going on, `version` is the
/// program's version.
pub open spec fn oep_step(cmd: Seq<char>, running: bool, version: Seq<char>) -> (
    Seq<Seq<char>>,
    Seq<Seq<char>>,
    SearchKind,
    Seq<char>,
    bool,
) {
    let body = cmd.subrange(16, cmd.len() as int);
    let ready = seq!["ready."@];
    if cmd.len() == 0 {
        (seq![state_line(running)], seq![], SearchKind::NoSearch, seq![], false)
    } else if !starts_with(cmd, HEADER@) {
        (seq![], seq!["unknown header:"@ + cmd], SearchKind::NoSearch, seq![], false)
    } else if starts_with(body, "midgame-search"@) || starts_with(body, "endgame-search"@) {
        if running {
            (seq![], seq!["Error: already thinking... {cmd}"@], SearchKind::NoSearch, seq![], false)
        } else {
            (
                seq![],
                seq![body],
                if starts_with(body, "midgame-search"@) {
                    SearchKind::Midgame
                } else {
                    SearchKind::Endgame
                },
                body,
                false,
            )
        }
    } else if starts_with(body, "stop"@) || starts_with(body, "new-position"@) || starts_with(body, "init"@)
        || starts_with(body, "empty-hash"@) {
        (ready, seq![body], SearchKind::NoSearch, seq![], false)
    } else if starts_with(body, "get-search-infos"@) {
        (seq![state_line(running)], seq![body], SearchKind::NoSearch, seq![], false)
    } else if starts_with(body, "get-version"@) {
        (seq!["version: ruversi "@ + version, "ready."@], seq![body], SearchKind::NoSearch, seq![], false)
    } else if starts_with(body, "quit"@) {
        (seq![], seq![body], SearchKind::NoSearch, seq![], true)
    } else {
        (seq![], seq!["unknown:"@ + cmd], SearchKind::NoSearch, seq![], false)
    }
}

/// Whether `s` begins with the text `p`.
fn begins(s: &Vec<char>, p: &str) -> (r: bool)
    ensures
        r == starts_with(s@, p@),
{
    starts_with_exec(s, &str_chars(p))
}

impl OthelloEngineProtocol {
    pub fn new() -> (r: OthelloEngineProtocol)
        ensures
            r.cmd@ == Seq::<char>::empty(),
    {
        OthelloEngineProtocol { cmd: chars_to_string(&Vec::new()) }
    }

    /// Serves one command line (already trimmed). A command with the header
    /// becomes the last command.
    pub fn processcmd(&mut self, cmd: &str, running: bool, version: &str) -> (r: OepStep)
        ensures
            (texts(r.print@), texts(r.log@), r.search, r.body@, r.quit) == oep_step(cmd@, running, version@),
            starts_with(cmd@, HEADER@) ==> final(self).cmd@ == cmd@,
            !starts_with(cmd@, HEADER@) ==> final(self).cmd@ == old(self).cmd@,
    {
        let mut print: Vec<String> = Vec::new();
        let mut log: Vec<String> = Vec::new();
        let mut search = SearchKind::NoSearch;
        let mut body_out = chars_to_string(&Vec::new());
        let mut quit = false;
        let c = str_chars(cmd);
        proof {
            reveal_strlit("ENGINE-PROTOCOL ");
            reveal_strlit("ready.");
            reveal_strlit("ok.");
        }
        if c.len() == 0 {
            print.push(str_string(if running { "ok." } else { "ready." }));
        } else if !begins(&c, HEADER) {
            log.push(concat_str("unknown header:", cmd));
        } else {
            self.cmd = chars_to_string(&c);
            let b = sub_chars(&c, 16, c.len());
            let body = chars_to_string(&b);
            let mid = begins(&b, "midgame-search");
            if mid || begins(&b, "endgame-search") {
                if running {
                    log.push(str_string("Error: already thinking... {cmd}"));
                } else {
                    log.push(chars_to_string(&b));
                    search = if mid {
                        SearchKind::Midgame
                    } else {
                        SearchKind::Endgame
                    };
                    body_out = body;
                }
            } else if begins(&b, "stop") || begins(&b, "new-position") || begins(&b, "init") || begins(
                &b,
                "empty-hash",
            ) {
                print.push(str_string("ready."));
                log.push(body);
            } else if begins(&b, "get-search-infos") {
                print.push(str_string(if running { "ok." } else { "ready." }));
                log.push(body);
            } else if begins(&b, "get-version") {
                print.push(concat_str("version: ruversi ", version));
                print.push(str_string("ready."));
                log.push(body);
            } else if begins(&b, "quit") {
                log.push(body);
                quit = true;
            } else {
                log.push(concat_str("unknown:", cmd));
            }
        }
        let r = OepStep { print, log, search, body: body_out, quit };
        proof {
            reveal_strlit("");
            assert(texts(r.print@) =~= oep_step(cmd@, running, version@).0);
            assert(texts(r.log@) =~= oep_step(cmd@, running, version@).1);
        }
        r
    }
}

/// A `midgame-search` command starts the midgame search and an
/// `endgame-search` command the endgame search, each on the command without
/// its header, when no search is running; while one runs, no command starts
/// another.
pub proof fn lemma_search_commands(cmd: Seq<char>, running: bool, version: Seq<char>)
    ensures
        !running && starts_with(cmd, "ENGINE-PROTOCOL midgame-search"@) ==> oep_step(cmd, running, version).2
            == SearchKind::Midgame && oep_step(cmd, running, version).3 == cmd.subrange(16, cmd.len() as int),
        !running && starts_with(cmd, "ENGINE-PROTOCOL endgame-search"@) ==> oep_step(cmd, running, version).2
            == SearchKind::Endgame && oep_step(cmd, running, version).3 == cmd.subrange(16, cmd.len() as int),
        running ==> oep_step(cmd, running, version).2 == SearchKind::NoSearch,
{
    reveal_strlit("ENGINE-PROTOCOL midgame-search");
    reveal_strlit("ENGINE-PROTOCOL endgame-search");
    reveal_strlit("ENGINE-PROTOCOL ");
    reveal_strlit("midgame-search");
    reveal_strlit("endgame-search");
    if starts_with(cmd, "ENGINE-PROTOCOL midgame-search"@) {
        let full = "ENGINE-PROTOCOL midgame-search"@;
        let body = cmd.subrange(16, cmd.len() as int);
        assert(cmd.subrange(0, 30) == full);
        assert forall|i: int| 0 <= i < 16 implies cmd.subrange(0, 16)[i] == HEADER@[i] by {
            assert(cmd.subrange(0, 30)[i] == cmd[i]);
        }
        assert(cmd.subrange(0, 16) =~= HEADER@);
        assert forall|i: int| 0 <= i < 14 implies body.subrange(0, 14)[i] == "midgame-search"@[i] by {
            assert(cmd.subrange(0, 30)[16 + i] == cmd[16 + i]);
        }
        assert(body.subrange(0, 14) =~= "midgame-search"@);
    }
    if starts_with(cmd, "ENGINE-PROTOCOL endgame-search"@) {
        let full = "ENGINE-PROTOCOL endgame-search"@;
        let body = cmd.subrange(16, cmd.len() as int);
        assert(cmd.subrange(0, 30) == full);
        assert forall|i: int| 0 <= i < 16 implies cmd.subrange(0, 16)[i] == HEADER@[i] by {
            assert(cmd.subrange(0, 30)[i] == cmd[i]);
        }
        assert(cmd.subrange(0, 16) =~= HEADER@);
        assert forall|i: int| 0 <= i < 14 implies body.subrange(0, 14)[i] == "endgame-search"@[i] by {
            assert(cmd.subrange(0, 30)[16 + i] == cmd[16 + i]);
        }
        assert(body.subrange(0, 14) =~= "endgame-search"@);
        assert(body.subrange(0, 14)[0] == 'e');
        assert(!starts_with(body, "midgame-search"@));
    }
}

} // verus!
