use vstd::prelude::*;
use crate::text::{chars_to_string, push_chars, starts_with, starts_with_exec, str_chars, sub_chars, trim, trim_exec};

verus! {

pub const OBF: &'static str = "/tmp/test.obf";
pub const CD: &'static str = "../../edax-reversi/";
pub const EDAXPATH: &'static str = "./bin/lEdax-x64-modern";
pub const EVFILE: &'static str = "data/eval.dat";

/// The trimmed rest of `line` after the prefix `p`, when it begins with `p`.
pub open spec fn value_after(line: Seq<char>, p: Seq<char>) -> Option<Seq<char>> {
    if starts_with(line, p) {
        Some(trim(line.subrange(p.len() as int, line.len() as int)))
    } else {
        None
    }
}

/// The trimmed rest of `line` after `p`, when `line` begins with `p`.
pub fn value_after_exec(line: &Vec<char>, p: &str) -> (r: Option<String>)
    ensures
        match value_after(line@, p@) {
            None => r is None,
            Some(v) => r matches Some(s) && s@ == v,
        },
{
    let pc = str_chars(p);
    if starts_with_exec(line, &pc) {
        let rest = sub_chars(line, pc.len(), line.len());
        let t = trim_exec(&rest);
        Some(chars_to_string(&t))
    } else {
        None
    }
}

fn string_of_str(s: &str) -> (r: String)
    ensures
        r@ == s@,
{
    chars_to_string(&str_chars(s))
}

fn push_str(v: &mut Vec<char>, s: &str)
    ensures
        final(v)@ == old(v)@ + s@,
{
    let c = str_chars(s);
    push_chars(v, &c);
}

/// Where and how Edax, the opponent engine, is run.
pub struct EdaxRunner {
    pub obfpath: String,
    pub curdir: String,
    pub path: String,
    pub evfile: String,
}

/// The texts of a list of strings.
pub open spec fn strings_view(v: Seq<String>) -> Seq<Seq<char>> {
    v.map_values(|s: String| s@)
}

impl View for EdaxRunner {
    /// Board file, working directory, program, evaluation file.
    type V = (Seq<char>, Seq<char>, Seq<char>, Seq<char>);

    open spec fn view(&self) -> Self::V {
        (self.obfpath@, self.curdir@, self.path@, self.evfile@)
    }
}

/// The default settings of the Edax runner.
pub open spec fn edax_defaults() -> (Seq<char>, Seq<char>, Seq<char>, Seq<char>) {
    (OBF@, CD@, EDAXPATH@, EVFILE@)
}

/// The settings after one configuration line.
pub open spec fn edax_line(v: (Seq<char>, Seq<char>, Seq<char>, Seq<char>), l: Seq<char>) -> (
    Seq<char>,
    Seq<char>,
    Seq<char>,
    Seq<char>,
) {
    if value_after(l, "obf:"@) is Some {
        (value_after(l, "obf:"@)->0, v.1, v.2, v.3)
    } else if value_after(l, "curdir:"@) is Some {
        (v.0, value_after(l, "curdir:"@)->0, v.2, v.3)
    } else if value_after(l, "edax:"@) is Some {
        (v.0, v.1, value_after(l, "edax:"@)->0, v.3)
    } else if value_after(l, "evfile::"@) is Some {
        (v.0, v.1, v.2, value_after(l, "evfile::"@)->0)
    } else {
        v
    }
}

/// The settings after the first `n` configuration lines.
pub open spec fn edax_lines(
    v: (Seq<char>, Seq<char>, Seq<char>, Seq<char>),
    lines: Seq<Seq<char>>,
    n: nat,
) -> (Seq<char>, Seq<char>, Seq<char>, Seq<char>)
    decreases n,
{
    if n == 0 {
        v
    } else {
        edax_line(edax_lines(v, lines, (n - 1) as nat), lines[n - 1])
    }
}

impl EdaxRunner {
    pub fn new() -> (r: EdaxRunner)
        ensures
            r@ == edax_defaults(),
    {
        EdaxRunner {
            obfpath: string_of_str(OBF),
            curdir: string_of_str(CD),
            path: string_of_str(EDAXPATH),
            evfile: string_of_str(EVFILE),
        }
    }

    /// Applies one line of a configuration file: `obf:`, `curdir:`, `edax:`
    /// and `evfile::` set the board file, the working directory, the program
    /// and the evaluation file to the trimmed rest of the line; other lines
    /// change nothing.
    pub fn config_line(&mut self, line: &str)
        ensures
            final(self)@ == edax_line(old(self)@, line@),
    {
        let l = str_chars(line);
        if let Some(v) = value_after_exec(&l, "obf:") {
            self.obfpath = v;
        } else if let Some(v) = value_after_exec(&l, "curdir:") {
            self.curdir = v;
        } else if let Some(v) = value_after_exec(&l, "edax:") {
            self.path = v;
        } else if let Some(v) = value_after_exec(&l, "evfile::") {
            self.evfile = v;
        }
    }

    /// The default settings when `path` is empty; otherwise the defaults
    /// changed by the lines of the configuration file at `path`, given in
    /// `file` as read (or the error met reading it).
    pub fn from_config(path: &str, file: Result<Vec<String>, String>) -> (r: Result<
        EdaxRunner,
        String,
    >)
        ensures
            path@.len() == 0 ==> (r matches Ok(er) && er@ == edax_defaults()),
            path@.len() > 0 ==> match file {
                Err(m) => r == Err::<EdaxRunner, String>(m),
                Ok(lines) => r matches Ok(er) && er@ == edax_lines(
                    edax_defaults(),
                    strings_view(lines@),
                    lines@.len(),
                ),
            },
    {
        let mut er = EdaxRunner::new();
        if path.is_empty() {
            return Ok(er);
        }
        match file {
            Err(m) => Err(m),
            Ok(lines) => {
                let mut i: usize = 0;
                while i < lines.len()
                    invariant
                        i <= lines@.len(),
                        er@ == edax_lines(edax_defaults(), strings_view(lines@), i as nat),
                    decreases lines.len() - i,
                {
                    er.config_line(lines[i].as_str());
                    i = i + 1;
                }
                Ok(er)
            },
        }
    }

    /// Sets the board file, working directory, program and evaluation file;
    /// an empty argument keeps the current setting.
    pub fn config(&mut self, obf: &str, cd: &str, path: &str, evfile: &str) -> (r: Result<(), String>)
        ensures
            r is Ok,
            final(self).obfpath@ == if obf@.len() == 0 { old(self).obfpath@ } else { obf@ },
            final(self).curdir@ == if cd@.len() == 0 { old(self).curdir@ } else { cd@ },
            final(self).path@ == if path@.len() == 0 { old(self).path@ } else { path@ },
            final(self).evfile@ == if evfile@.len() == 0 { old(self).evfile@ } else { evfile@ },
    {
        if !obf.is_empty() {
            self.obfpath = string_of_str(obf);
        }
        if !cd.is_empty() {
            self.curdir = string_of_str(cd);
        }
        if !path.is_empty() {
            self.path = string_of_str(path);
        }
        if !evfile.is_empty() {
            self.evfile = string_of_str(evfile);
        }
        Ok(())
    }

    /// The settings as text: `obf:.., curdir:.., edax:.., evfile:..`.
    pub fn to_str(&self) -> (r: String)
        ensures
            r@ == "obf:"@ + self.obfpath@ + ", curdir:"@ + self.curdir@ + ", edax:"@ + self.path@
                + ", evfile:"@ + self.evfile@,
    {
        let mut v: Vec<char> = Vec::new();
        push_str(&mut v, "obf:");
        push_str(&mut v, self.obfpath.as_str());
        push_str(&mut v, ", curdir:");
        push_str(&mut v, self.curdir.as_str());
        push_str(&mut v, ", edax:");
        push_str(&mut v, self.path.as_str());
        push_str(&mut v, ", evfile:");
        push_str(&mut v, self.evfile.as_str());
        chars_to_string(&v)
    }
}

/// Where and how another instance of this program is run as the opponent.
pub struct RuversiRunner {
    pub curdir: String,
    pub path: String,
    pub evfile: String,
    pub verbose: bool,
}

impl View for RuversiRunner {
    /// Working directory, program, evaluation file, verbosity.
    type V = (Seq<char>, Seq<char>, Seq<char>, bool);

    open spec fn view(&self) -> Self::V {
        (self.curdir@, self.path@, self.evfile@, self.verbose)
    }
}

/// The default settings of the runner of another instance.
pub open spec fn ruversi_defaults() -> (Seq<char>, Seq<char>, Seq<char>, bool) {
    ("../ruversi2"@, "./target/release/ruversi"@, "data/evaltable.txt"@, true)
}

/// The settings after one configuration line.
pub open spec fn ruversi_line(v: (Seq<char>, Seq<char>, Seq<char>, bool), l: Seq<char>) -> (
    Seq<char>,
    Seq<char>,
    Seq<char>,
    bool,
) {
    if value_after(l, "curdir:"@) is Some {
        (value_after(l, "curdir:"@)->0, v.1, v.2, v.3)
    } else if value_after(l, "path:"@) is Some {
        (v.0, value_after(l, "path:"@)->0, v.2, v.3)
    } else if value_after(l, "evfile::"@) is Some {
        (v.0, v.1, value_after(l, "evfile::"@)->0, v.3)
    } else {
        v
    }
}

/// The settings after the first `n` configuration lines.
pub open spec fn ruversi_lines(
    v: (Seq<char>, Seq<char>, Seq<char>, bool),
    lines: Seq<Seq<char>>,
    n: nat,
) -> (Seq<char>, Seq<char>, Seq<char>, bool)
    decreases n,
{
    if n == 0 {
        v
    } else {
        ruversi_line(ruversi_lines(v, lines, (n - 1) as nat), lines[n - 1])
    }
}

impl RuversiRunner {
    pub fn new() -> (r: RuversiRunner)
        ensures
            r@ == ruversi_defaults(),
    {
        RuversiRunner {
            curdir: string_of_str("../ruversi2"),
            path: string_of_str("./target/release/ruversi"),
            evfile: string_of_str("data/evaltable.txt"),
            verbose: true,
        }
    }

    pub fn set_verbose(&mut self, verbose: bool)
        ensures
            final(self)@ == (old(self)@.0, old(self)@.1, old(self)@.2, verbose),
    {
        self.verbose = verbose;
    }

    /// Applies one line of a configuration file: `curdir:`, `path:` and
    /// `evfile::` set the working directory, the program and the evaluation
    /// file to the trimmed rest of the line; other lines change nothing.
    pub fn config_line(&mut self, line: &str)
        ensures
            final(self)@ == ruversi_line(old(self)@, line@),
    {
        let l = str_chars(line);
        if let Some(v) = value_after_exec(&l, "curdir:") {
            self.curdir = v;
        } else if let Some(v) = value_after_exec(&l, "path:") {
            self.path = v;
        } else if let Some(v) = value_after_exec(&l, "evfile::") {
            self.evfile = v;
        }
    }

    /// The default settings when `path` is empty; otherwise the defaults
    /// changed by the lines of the configuration file at `path`, given in
    /// `file` as read (or the error met reading it).
    pub fn from_config(path: &str, file: Result<Vec<String>, String>) -> (r: Result<
        RuversiRunner,
        String,
    >)
        ensures
            path@.len() == 0 ==> (r matches Ok(rr) && rr@ == ruversi_defaults()),
            path@.len() > 0 ==> match file {
                Err(m) => r == Err::<RuversiRunner, String>(m),
                Ok(lines) => r matches Ok(rr) && rr@ == ruversi_lines(
                    ruversi_defaults(),
                    strings_view(lines@),
                    lines@.len(),
                ),
            },
    {
        let mut rr = RuversiRunner::new();
        if path.is_empty() {
            return Ok(rr);
        }
        match file {
            Err(m) => Err(m),
            Ok(lines) => {
                let mut i: usize = 0;
                while i < lines.len()
                    invariant
                        i <= lines@.len(),
                        rr@ == ruversi_lines(ruversi_defaults(), strings_view(lines@), i as nat),
                    decreases lines.len() - i,
                {
                    rr.config_line(lines[i].as_str());
                    i = i + 1;
                }
                Ok(rr)
            },
        }
    }

    /// The settings as text: `curdir:.., ruversi:.., evfile:..`.
    pub fn to_str(&self) -> (r: String)
        ensures
            r@ == "curdir:"@ + self.curdir@ + ", ruversi:"@ + self.path@ + ", evfile:"@
                + self.evfile@,
    {
        let mut v: Vec<char> = Vec::new();
        push_str(&mut v, "curdir:");
        push_str(&mut v, self.curdir.as_str());
        push_str(&mut v, ", ruversi:");
        push_str(&mut v, self.path.as_str());
        push_str(&mut v, ", evfile:");
        push_str(&mut v, self.evfile.as_str());
        chars_to_string(&v)
    }
}

/// Where and how Edax is run through the engine protocol.
pub struct CassioRunner {
    pub curdir: String,
    pub path: String,
    pub evfile: String,
    pub cas: String,
}

impl View for CassioRunner {
    /// Working directory, program, evaluation file, protocol option.
    type V = (Seq<char>, Seq<char>, Seq<char>, Seq<char>);

    open spec fn view(&self) -> Self::V {
        (self.curdir@, self.path@, self.evfile@, self.cas@)
    }
}

/// The default settings of the engine-protocol runner.
pub open spec fn cassio_defaults() -> (Seq<char>, Seq<char>, Seq<char>, Seq<char>) {
    (CD@, EDAXPATH@, EVFILE@, "-cassio"@)
}

/// The settings after one configuration line.
pub open spec fn cassio_line(v: (Seq<char>, Seq<char>, Seq<char>, Seq<char>), l: Seq<char>) -> (
    Seq<char>,
    Seq<char>,
    Seq<char>,
    Seq<char>,
) {
    if value_after(l, "curdir:"@) is Some {
        (value_after(l, "curdir:"@)->0, v.1, v.2, v.3)
    } else if value_after(l, "path:"@) is Some {
        (v.0, value_after(l, "path:"@)->0, v.2, v.3)
    } else if value_after(l, "edax:"@) is Some {
        (v.0, value_after(l, "edax:"@)->0, v.2, v.3)
    } else if value_after(l, "evfile:"@) is Some {
        (v.0, v.1, value_after(l, "evfile:"@)->0, v.3)
    } else if value_after(l, "cas:"@) is Some {
        (v.0, v.1, v.2, value_after(l, "cas:"@)->0)
    } else {
        v
    }
}

/// The settings after the first `n` configuration lines.
pub open spec fn cassio_lines(
    v: (Seq<char>, Seq<char>, Seq<char>, Seq<char>),
    lines: Seq<Seq<char>>,
    n: nat,
) -> (Seq<char>, Seq<char>, Seq<char>, Seq<char>)
    decreases n,
{
    if n == 0 {
        v
    } else {
        cassio_line(cassio_lines(v, lines, (n - 1) as nat), lines[n - 1])
    }
}

impl CassioRunner {
    pub fn new() -> (r: CassioRunner)
        ensures
            r@ == cassio_defaults(),
    {
        CassioRunner {
            curdir: string_of_str(CD),
            path: string_of_str(EDAXPATH),
            evfile: string_of_str(EVFILE),
            cas: string_of_str("-cassio"),
        }
    }

    /// Applies one line of a configuration file: `curdir:`, `path:` (or
    /// `edax:`), `evfile:` and `cas:` set the working directory, the program,
    /// the evaluation file and the protocol option to the trimmed rest of the
    /// line; other lines change nothing.
    pub fn config_line(&mut self, line: &str)
        ensures
            final(self)@ == cassio_line(old(self)@, line@),
    {
        let l = str_chars(line);
        if let Some(v) = value_after_exec(&l, "curdir:") {
            self.curdir = v;
        } else if let Some(v) = value_after_exec(&l, "path:") {
            self.path = v;
        } else if let Some(v) = value_after_exec(&l, "edax:") {
            self.path = v;
        } else if let Some(v) = value_after_exec(&l, "evfile:") {
            self.evfile = v;
        } else if let Some(v) = value_after_exec(&l, "cas:") {
            self.cas = v;
        }
    }

    /// The default settings when `path` is empty; otherwise the defaults
    /// changed by the lines of the configuration file at `path`, given in
    /// `file` as read (or the error met reading it).
    pub fn from_config(path: &str, file: Result<Vec<String>, String>) -> (r: Result<
        CassioRunner,
        String,
    >)
        ensures
            path@.len() == 0 ==> (r matches Ok(cr) && cr@ == cassio_defaults()),
            path@.len() > 0 ==> match file {
                Err(m) => r == Err::<CassioRunner, String>(m),
                Ok(lines) => r matches Ok(cr) && cr@ == cassio_lines(
                    cassio_defaults(),
                    strings_view(lines@),
                    lines@.len(),
                ),
            },
    {
        let mut cr = CassioRunner::new();
        if path.is_empty() {
            return Ok(cr);
        }
        match file {
            Err(m) => Err(m),
            Ok(lines) => {
                let mut i: usize = 0;
                while i < lines.len()
                    invariant
                        i <= lines@.len(),
                        cr@ == cassio_lines(cassio_defaults(), strings_view(lines@), i as nat),
                    decreases lines.len() - i,
                {
                    cr.config_line(lines[i].as_str());
                    i = i + 1;
                }
                Ok(cr)
            },
        }
    }

    /// The settings as text: `curdir:.., path:.., evfile:.., cassio:..`.
    pub fn to_str(&self) -> (r: String)
        ensures
            r@ == "curdir:"@ + self.curdir@ + ", path:"@ + self.path@ + ", evfile:"@ + self.evfile@
                + ", cassio:"@ + self.cas@,
    {
        let mut v: Vec<char> = Vec::new();
        push_str(&mut v, "curdir:");
        push_str(&mut v, self.curdir.as_str());
        push_str(&mut v, ", path:");
        push_str(&mut v, self.path.as_str());
        push_str(&mut v, ", evfile:");
        push_str(&mut v, self.evfile.as_str());
        push_str(&mut v, ", cassio:");
        push_str(&mut v, self.cas.as_str());
        chars_to_string(&v)
    }
}

} // verus!
