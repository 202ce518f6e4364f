//! Character data and the events of the stream, with their display form.
use vstd::prelude::*;
use crate::text::{chars_of, push_all, string_of, Text};

verus! {

/// Character data: `CData` has gone through reference expansion and is final, so a
/// literal `&` in it is escaped on display; `RcData` is shown as it stands.
#[derive(Debug, PartialEq)]
pub enum Data<'a> {
    CData(Text<'a>),
    RcData(Text<'a>),
}

impl<'a> Data<'a> {
    pub open spec fn spec_text(&self) -> Seq<char> {
        match self {
            Data::CData(t) => t@,
            Data::RcData(t) => t@,
        }
    }

    pub open spec fn spec_verbatim(&self) -> bool {
        self is CData
    }

    /// Whether the data holds an owned buffer, borrowing nothing.
    pub open spec fn spec_owned(&self) -> bool {
        match self {
            Data::CData(t) => t is Owned,
            Data::RcData(t) => t is Owned,
        }
    }

    /// The characters of the data.
    pub fn as_str(&self) -> (r: &str)
        ensures
            r@ == self.spec_text(),
    {
        match self {
            Data::CData(t) => t.as_str(),
            Data::RcData(t) => t.as_str(),
        }
    }

    /// Whether the data is final, so that `&` in it stands for itself.
    pub fn verbatim(&self) -> (r: bool)
        ensures
            r == self.spec_verbatim(),
    {
        match self {
            Data::CData(_) => true,
            Data::RcData(_) => false,
        }
    }

    /// The same data, holding an owned buffer.
    pub fn into_owned(self) -> (r: Data<'static>)
        ensures
            r.spec_text() == self.spec_text(),
            r.spec_verbatim() == self.spec_verbatim(),
            r.spec_owned(),
    {
        match self {
            Data::CData(t) => Data::CData(t.into_owned()),
            Data::RcData(t) => Data::RcData(t.into_owned()),
        }
    }

    /// The display form of the data as character content: final data has each `&`
    /// written as `&#38;`.
    pub fn escape(&self) -> (r: String)
        ensures
            r@ == escape_chars(self.spec_text(), false, self.spec_verbatim()),
    {
        let s = chars_of(self.as_str());
        let out = escaped(&s, false, self.verbatim());
        string_of(out.as_slice())
    }
}

/// What `c` is written as: `"` as `&#34;` when `quote`, `&` as `&#38;` when `amp`.
pub open spec fn escape_char(c: char, quote: bool, amp: bool) -> Seq<char> {
    if quote && c == '"' {
        seq!['&', '#', '3', '4', ';']
    } else if amp && c == '&' {
        seq!['&', '#', '3', '8', ';']
    } else {
        seq![c]
    }
}

/// `s` with each character written as `escape_char` says.
pub open spec fn escape_chars(s: Seq<char>, quote: bool, amp: bool) -> Seq<char>
    decreases s.len(),
{
    if s.len() == 0 {
        Seq::empty()
    } else {
        escape_chars(s.drop_last(), quote, amp) + escape_char(s.last(), quote, amp)
    }
}

pub(crate) fn escaped(s: &Vec<char>, quote: bool, amp: bool) -> (r: Vec<char>)
    ensures
        r@ == escape_chars(s@, quote, amp),
{
    let mut out: Vec<char> = Vec::new();
    let mut k: usize = 0;
    while k < s.len()
        invariant
            k <= s.len(),
            out@ == escape_chars(s@.take(k as int), quote, amp),
        decreases s.len() - k,
    {
        let c = s[k];
        let ghost before = out@;
        if quote && c == '"' {
            push_all(&mut out, &['&', '#', '3', '4', ';']);
        } else if amp && c == '&' {
            push_all(&mut out, &['&', '#', '3', '8', ';']);
        } else {
            out.push(c);
        }
        proof {
            assert(s@.take(k + 1).drop_last() =~= s@.take(k as int));
        }
        k = k + 1;
    }
    assert(s@.take(s.len() as int) =~= s@);
    out
}

/// Whether `c` is SGML whitespace: space, tab, carriage return or line feed.
pub open spec fn sgml_whitespace(c: char) -> bool {
    c == ' ' || c == '\t' || c == '\r' || c == '\n'
}

/// Matches the SGML whitespace characters `" \t\r\n"`; form feed and other Unicode
/// whitespace are not among them.
pub fn is_sgml_whitespace(c: char) -> (r: bool)
    ensures
        r == sgml_whitespace(c),
{
    c == ' ' || c == '\t' || c == '\r' || c == '\n'
}

/// Whether `s` holds nothing but SGML whitespace.
pub fn is_blank(s: &str) -> (r: bool)
    ensures
        r == (forall|i: int| 0 <= i < s@.len() ==> sgml_whitespace(#[trigger] s@[i])),
{
    let v = chars_of(s);
    let mut k: usize = 0;
    while k < v.len()
        invariant
            k <= v.len(),
            v@ == s@,
            forall|i: int| 0 <= i < k ==> sgml_whitespace(#[trigger] s@[i]),
        decreases v.len() - k,
    {
        if !is_sgml_whitespace(v[k]) {
            return false;
        }
        k = k + 1;
    }
    true
}

} // verus!
