use vstd::prelude::*;
use crate::text::{chars_to_string, str_chars, str_is};

verus! {

/// The layouts of evaluation table files, told apart by their first line.
#[derive(Clone, Copy, Debug, PartialEq, Eq, Structural)]
pub enum EvalFile {
    Unknown,
    V1,
    V2,
    V3,
    V4,
    V5,
    V6,
    V7,
    V8,
    V9,
    V10,
    V11,
    V12,
}

/// The first line that marks each layout (for `Unknown`, a message).
pub open spec fn eval_header(e: EvalFile) -> Seq<char> {
    match e {
        EvalFile::Unknown => "unknown eval file format."@,
        EvalFile::V1 => "# 65-4-1"@,
        EvalFile::V2 => "# 64+1-4-1"@,
        EvalFile::V3 => "# 64+1+2-4-1"@,
        EvalFile::V4 => "# 64+1+2-8-1"@,
        EvalFile::V5 => "# 64+1+2-16-1"@,
        EvalFile::V6 => "# 64+1+2-32-1"@,
        EvalFile::V7 => "# 64+1+2-32-16-1"@,
        EvalFile::V8 => "# 64+1+2-128-16-1"@,
        EvalFile::V9 => "# 3x 64+1+2-128-16-1"@,
        EvalFile::V10 => "# 3x 128+1+2-128-16-1"@,
        EvalFile::V11 => "# 3x 128+1-128-16-1"@,
        EvalFile::V12 => "# 6x 128-128-16-1"@,
    }
}

/// The layout whose header is `t`, if any.
pub open spec fn eval_from(t: Seq<char>) -> Option<EvalFile> {
    if t == "# 65-4-1"@ {
        Some(EvalFile::V1)
    } else if t == "# 64+1-4-1"@ {
        Some(EvalFile::V2)
    } else if t == "# 64+1+2-4-1"@ {
        Some(EvalFile::V3)
    } else if t == "# 64+1+2-8-1"@ {
        Some(EvalFile::V4)
    } else if t == "# 64+1+2-16-1"@ {
        Some(EvalFile::V5)
    } else if t == "# 64+1+2-32-1"@ {
        Some(EvalFile::V6)
    } else if t == "# 64+1+2-32-16-1"@ {
        Some(EvalFile::V7)
    } else if t == "# 64+1+2-128-16-1"@ {
        Some(EvalFile::V8)
    } else if t == "# 3x 64+1+2-128-16-1"@ {
        Some(EvalFile::V9)
    } else if t == "# 3x 128+1+2-128-16-1"@ {
        Some(EvalFile::V10)
    } else if t == "# 3x 128+1-128-16-1"@ {
        Some(EvalFile::V11)
    } else if t == "# 6x 128-128-16-1"@ {
        Some(EvalFile::V12)
    } else {
        None
    }
}

impl EvalFile {
    /// The layout announced by a header line; `None` for any other text.
    pub fn from(txt: &str) -> (r: Option<EvalFile>)
        ensures
            r == eval_from(txt@),
    {
        if str_is(txt, "# 65-4-1") {
            Some(EvalFile::V1)
        } else if str_is(txt, "# 64+1-4-1") {
            Some(EvalFile::V2)
        } else if str_is(txt, "# 64+1+2-4-1") {
            Some(EvalFile::V3)
        } else if str_is(txt, "# 64+1+2-8-1") {
            Some(EvalFile::V4)
        } else if str_is(txt, "# 64+1+2-16-1") {
            Some(EvalFile::V5)
        } else if str_is(txt, "# 64+1+2-32-1") {
            Some(EvalFile::V6)
        } else if str_is(txt, "# 64+1+2-32-16-1") {
            Some(EvalFile::V7)
        } else if str_is(txt, "# 64+1+2-128-16-1") {
            Some(EvalFile::V8)
        } else if str_is(txt, "# 3x 64+1+2-128-16-1") {
            Some(EvalFile::V9)
        } else if str_is(txt, "# 3x 128+1+2-128-16-1") {
            Some(EvalFile::V10)
        } else if str_is(txt, "# 3x 128+1-128-16-1") {
            Some(EvalFile::V11)
        } else if str_is(txt, "# 6x 128-128-16-1") {
            Some(EvalFile::V12)
        } else {
            None
        }
    }

    /// The header line of the layout (a message for `Unknown`).
    pub fn to_str(&self) -> (r: String)
        ensures
            r@ == eval_header(*self),
    {
        let t: &str = match self {
            EvalFile::Unknown => "unknown eval file format.",
            EvalFile::V1 => "# 65-4-1",
            EvalFile::V2 => "# 64+1-4-1",
            EvalFile::V3 => "# 64+1+2-4-1",
            EvalFile::V4 => "# 64+1+2-8-1",
            EvalFile::V5 => "# 64+1+2-16-1",
            EvalFile::V6 => "# 64+1+2-32-1",
            EvalFile::V7 => "# 64+1+2-32-16-1",
            EvalFile::V8 => "# 64+1+2-128-16-1",
            EvalFile::V9 => "# 3x 64+1+2-128-16-1",
            EvalFile::V10 => "# 3x 128+1+2-128-16-1",
            EvalFile::V11 => "# 3x 128+1-128-16-1",
            EvalFile::V12 => "# 6x 128-128-16-1",
        };
        chars_to_string(&str_chars(t))
    }
}

/// Reading back the header of a layout gives that layout again.
pub proof fn lemma_header_roundtrip(e: EvalFile)
    requires
        e != EvalFile::Unknown,
    ensures
        eval_from(eval_header(e)) == Some(e),
{
    reveal_strlit("# 65-4-1");
    reveal_strlit("# 64+1-4-1");
    reveal_strlit("# 64+1+2-4-1");
    reveal_strlit("# 64+1+2-8-1");
    reveal_strlit("# 64+1+2-16-1");
    reveal_strlit("# 64+1+2-32-1");
    reveal_strlit("# 64+1+2-32-16-1");
    reveal_strlit("# 64+1+2-128-16-1");
    reveal_strlit("# 3x 64+1+2-128-16-1");
    reveal_strlit("# 3x 128+1+2-128-16-1");
    reveal_strlit("# 3x 128+1-128-16-1");
    reveal_strlit("# 6x 128-128-16-1");
    assert("# 65-4-1"@.len() == 8);
    assert("# 64+1-4-1"@.len() == 10);
    assert("# 64+1+2-4-1"@.len() == 12);
    assert("# 64+1+2-8-1"@.len() == 12);
    assert("# 64+1+2-16-1"@.len() == 13);
    assert("# 64+1+2-32-1"@.len() == 13);
    assert("# 64+1+2-32-16-1"@.len() == 16);
    assert("# 64+1+2-128-16-1"@.len() == 17);
    assert("# 3x 64+1+2-128-16-1"@.len() == 20);
    assert("# 3x 128+1+2-128-16-1"@.len() == 21);
    assert("# 3x 128+1-128-16-1"@.len() == 19);
    assert("# 6x 128-128-16-1"@.len() == 17);
    assert("# 64+1+2-4-1"@[9] != "# 64+1+2-8-1"@[9]);
    assert("# 64+1+2-16-1"@[9] != "# 64+1+2-32-1"@[9]);
    assert("# 64+1+2-128-16-1"@[3] != "# 6x 128-128-16-1"@[3]);
}

} // verus!
