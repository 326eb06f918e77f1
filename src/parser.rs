use vstd::prelude::*;
use crate::scanner::{fragment, scan};
use crate::text::chars_of;
use crate::value::{well_formed, JsonData, Value};

verus! {

/// A forward-only position in a text, shared by the scanner invocations that read from it.
pub struct JsonCursor {
    chars: Vec<char>,
    pos: usize,
}

impl JsonCursor {
    /// The whole text.
    pub closed spec fn text(&self) -> Seq<char> {
        self.chars@
    }

    /// The position of the next character to read.
    pub closed spec fn pos(&self) -> int {
        self.pos as int
    }

    pub closed spec fn wf(&self) -> bool {
        self.pos <= self.chars@.len()
    }

    /// A cursor at the start of `text`.
    pub fn new(text: &str) -> (r: JsonCursor)
        ensures
            r.wf(),
            r.text() == text@,
            r.pos() == 0,
    {
        JsonCursor { chars: chars_of(text), pos: 0 }
    }

    /// Whether every character has been read.
    pub fn at_end(&self) -> (r: bool)
        requires
            self.wf(),
        ensures
            r == (self.pos() >= self.text().len()),
    {
        self.pos >= self.chars.len()
    }
}

/// Reads one value from the cursor and hands it back with the character that ended it; the
/// cursor is left after that character.
pub fn parse_fragment(chars: &mut JsonCursor) -> (r: (JsonData, char))
    requires
        old(chars).wf(),
    ensures
        final(chars).wf(),
        final(chars).text() == old(chars).text(),
        old(chars).pos() <= final(chars).pos(),
        final(chars).pos() == fragment(old(chars).text(), old(chars).pos()).next,
        r.0@ == fragment(old(chars).text(), old(chars).pos()).value,
        r.1 == fragment(old(chars).text(), old(chars).pos()).term,
        well_formed(r.0@),
{
    let (v, t, np) = scan(&chars.chars, chars.pos);
    chars.pos = np;
    (v, t)
}

/// Reads the first value of `json`; what follows it is ignored.
pub fn parse(json: &str) -> (r: JsonData)
    ensures
        r@ == fragment(json@, 0).value,
        well_formed(r@),
{
    let cs = chars_of(json);
    scan(&cs, 0).0
}

/// The values of a text of several values written one after another, read one at a time.
pub struct JsonStr {
    chars: JsonCursor,
}

impl JsonStr {
    pub closed spec fn text(&self) -> Seq<char> {
        self.chars.text()
    }

    pub closed spec fn pos(&self) -> int {
        self.chars.pos()
    }

    pub closed spec fn wf(&self) -> bool {
        self.chars.wf()
    }

    /// The values of `text`, from its start.
    pub fn new(text: &str) -> (r: JsonStr)
        ensures
            r.wf(),
            r.text() == text@,
            r.pos() == 0,
    {
        JsonStr { chars: JsonCursor::new(text) }
    }

    /// The next value, or `None` once a read finds no value.
    pub fn next(&mut self) -> (r: Option<JsonData>)
        requires
            old(self).wf(),
        ensures
            final(self).wf(),
            final(self).text() == old(self).text(),
            final(self).pos() == fragment(old(self).text(), old(self).pos()).next,
            fragment(old(self).text(), old(self).pos()).value is Absent <==> r is None,
            r matches Some(v) ==> v@ == fragment(old(self).text(), old(self).pos()).value
                && well_formed(v@),
    {
        let (v, _t) = parse_fragment(&mut self.chars);
        match v {
            JsonData::Absent => None,
            data => Some(data),
        }
    }
}

} // verus!
