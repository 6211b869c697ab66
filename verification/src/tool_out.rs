//! One tool call and its outcome, as its caller wants it shown and as a model
//! reads it back.

use crate::json;
use crate::json::Json;
use crate::text;
use vstd::prelude::*;
use vstd::string::*;

verus! {

/// A tool call: which tool, and what it was given.
#[derive(Debug)]
pub struct Call {
    pub name: String,
    pub args: Json,
}

impl Call {
    /// The text argument `key`, or nothing.
    pub fn str(&self, key: &str) -> (r: String)
        ensures
            r@ == json::words_at(self.args, key@),
    {
        self.args.words(key)
    }
}

/// One tool call's outcome.
#[derive(Debug)]
pub struct ToolOut {
    /// The call's gist: a command, a path, a recipient; one line.
    pub arg: String,
    pub ok: bool,
    /// Facts beside it: `exit 0`, `4.1 KB`, `12ms`.
    pub meta: Vec<String>,
    /// What came back. Empty for a call with nothing to show.
    pub body: String,
}

/// An outcome as its texts.
pub struct Outcome {
    pub arg: Seq<char>,
    pub ok: bool,
    pub meta: Seq<Seq<char>>,
    pub body: Seq<char>,
}

impl View for ToolOut {
    type V = Outcome;

    open spec fn view(&self) -> Outcome {
        Outcome { arg: self.arg@, ok: self.ok, meta: text::texts(self.meta@), body: self.body@ }
    }
}

/// An outcome with nothing but its argument and whether it went well.
pub open spec fn bare(arg: Seq<char>, ok: bool) -> Outcome {
    Outcome { arg, ok, meta: seq![], body: seq![] }
}

pub open spec fn with_meta(o: Outcome, m: Seq<char>) -> Outcome {
    Outcome { meta: o.meta.push(m), ..o }
}

pub open spec fn with_body(o: Outcome, b: Seq<char>) -> Outcome {
    Outcome { body: b, ..o }
}

/// The plain text a model reads back.
pub open spec fn told(o: Outcome) -> Seq<char> {
    let meta = if o.meta.len() == 0 {
        ""@
    } else {
        "  ("@ + text::joined(o.meta, ", "@) + ")"@
    };
    if o.body.len() == 0 {
        o.arg + meta
    } else {
        o.arg + meta + "\n"@ + o.body
    }
}

impl ToolOut {
    pub fn new(arg: &str, ok: bool) -> (r: ToolOut)
        ensures
            r@ == bare(arg@, ok),
    {
        let r = ToolOut { arg: arg.to_owned(), ok, meta: Vec::new(), body: String::new() };
        assert(text::texts(r.meta@) =~= Seq::<Seq<char>>::empty());
        r
    }

    pub fn meta(self, m: &str) -> (r: ToolOut)
        ensures
            r@ == with_meta(self@, m@),
    {
        let mut meta = self.meta;
        let s = m.to_owned();
        proof {
            text::lemma_texts_push(meta@, s);
        }
        meta.push(s);
        ToolOut { arg: self.arg, ok: self.ok, meta, body: self.body }
    }

    pub fn body(self, b: &str) -> (r: ToolOut)
        ensures
            r@ == with_body(self@, b@),
    {
        ToolOut { arg: self.arg, ok: self.ok, meta: self.meta, body: b.to_owned() }
    }

    /// The plain-text form a model reads back (`Inspect`), no colour.
    pub fn text(&self) -> (r: String)
        ensures
            r@ == told(self@),
    {
        let meta = if self.meta.len() == 0 {
            "".to_owned()
        } else {
            String::from_str("  (").concat(text::join(&self.meta, ", ").as_str()).concat(")")
        };
        let head = self.arg.clone().concat(meta.as_str());
        if self.body.as_str().is_empty() {
            head
        } else {
            head.concat("\n").concat(self.body.as_str())
        }
    }
}

/// An answer is told with all of it: what it was about first, every fact beside
/// it, and the whole body last.
pub proof fn an_answer_is_told_whole(o: Outcome, i: int)
    ensures
        text::starts(told(o), o.arg),
        o.body.len() > 0 ==> text::ends(told(o), o.body),
        0 <= i < o.meta.len() ==> text::has(told(o), o.meta[i]),
        o.meta.len() == 0 && o.body.len() == 0 ==> told(o) == o.arg,
        o.meta.len() == 0 && o.body.len() > 0 ==> told(o) == o.arg + "\n"@ + o.body,
{
    reveal_strlit("");
    let m = text::joined(o.meta, ", "@);
    let meta = if o.meta.len() == 0 {
        ""@
    } else {
        "  ("@ + m + ")"@
    };
    assert(told(o).subrange(0, o.arg.len() as int) =~= o.arg);
    if o.body.len() > 0 {
        assert(told(o).subrange(told(o).len() - o.body.len(), told(o).len() as int) =~= o.body);
    }
    if 0 <= i < o.meta.len() {
        let p = o.meta[i];
        text::lemma_has_part(o.meta, ", "@, i);
        text::lemma_has_right("  ("@, m, p);
        text::lemma_has_left("  ("@ + m, ")"@, p);
        text::lemma_has_right(o.arg, meta, p);
        text::lemma_has_left(o.arg + meta, "\n"@, p);
        text::lemma_has_left(o.arg + meta + "\n"@, o.body, p);
    }
    if o.meta.len() == 0 {
        assert(o.arg + meta =~= o.arg);
    }
}

/// What is added to an answer changes nothing else of it.
pub proof fn an_answer_is_built_part_by_part(o: Outcome, m: Seq<char>, b: Seq<char>)
    ensures
        with_meta(o, m).meta.last() == m,
        with_meta(o, m).meta.drop_last() == o.meta,
        with_meta(o, m).arg == o.arg && with_meta(o, m).ok == o.ok && with_meta(o, m).body == o.body,
        with_body(o, b).body == b,
        with_body(o, b).arg == o.arg && with_body(o, b).ok == o.ok && with_body(o, b).meta
            == o.meta,
        bare(m, o.ok).arg == m && bare(m, o.ok).ok == o.ok && bare(m, o.ok).meta.len() == 0 && bare(
            m,
            o.ok,
        ).body.len() == 0,
{
    assert(with_meta(o, m).meta.drop_last() =~= o.meta);
}

} // verus!
