//! The events of the stream that the parser produces.
use vstd::prelude::*;
use crate::data::{escape_char, escape_chars, escaped, Data};
use crate::text::{chars_of, contains_char, push_all, string_of, Text};

verus! {

/// A relevant occurrence in an SGML document. A start tag is an `OpenStartTag`, an
/// `Attribute` for each attribute, then a `CloseStartTag` or `XmlCloseEmptyElement`; an
/// end tag is one `EndTag`; comments give no event.
#[derive(Debug, PartialEq)]
pub enum SgmlEvent<'a> {
    /// A markup declaration such as `<!DOCTYPE ...>`.
    MarkupDeclaration(Text<'a>),
    /// A processing instruction such as `<?EXAMPLE>`.
    ProcessingInstruction(Text<'a>),
    /// A marked section kept as it stands, such as `<![IGNORE[...]]>`.
    MarkedSection { status_keywords: Text<'a>, section: Text<'a> },
    /// The opening of a start tag, such as `<EXAMPLE`; empty for `<>`.
    OpenStartTag(Text<'a>),
    /// An attribute in a start tag, such as `FOO="bar"`.
    Attribute(Text<'a>, Option<Data<'a>>),
    /// The `>` that closes a start tag.
    CloseStartTag,
    /// The `/>` that closes an empty element.
    XmlCloseEmptyElement,
    /// An end tag such as `</EXAMPLE>`; empty for `</>`.
    EndTag(Text<'a>),
    /// Character data outside tags.
    Character(Data<'a>),
}

/// Whether two optional data values hold the same kind and characters.
pub open spec fn same_data(a: Option<Data>, b: Option<Data>) -> bool {
    match (a, b) {
        (None, None) => true,
        (Some(x), Some(y)) => x.spec_text() == y.spec_text() && x.spec_verbatim() == y.spec_verbatim(),
        _ => false,
    }
}

/// Whether two events are of the same kind and hold the same characters.
pub open spec fn same_event(a: SgmlEvent, b: SgmlEvent) -> bool {
    match (a, b) {
        (SgmlEvent::MarkupDeclaration(x), SgmlEvent::MarkupDeclaration(y)) => x@ == y@,
        (SgmlEvent::ProcessingInstruction(x), SgmlEvent::ProcessingInstruction(y)) => x@ == y@,
        (
            SgmlEvent::MarkedSection { status_keywords: k1, section: s1 },
            SgmlEvent::MarkedSection { status_keywords: k2, section: s2 },
        ) => k1@ == k2@ && s1@ == s2@,
        (SgmlEvent::OpenStartTag(x), SgmlEvent::OpenStartTag(y)) => x@ == y@,
        (SgmlEvent::Attribute(n1, v1), SgmlEvent::Attribute(n2, v2)) => n1@ == n2@ && same_data(v1, v2),
        (SgmlEvent::CloseStartTag, SgmlEvent::CloseStartTag) => true,
        (SgmlEvent::XmlCloseEmptyElement, SgmlEvent::XmlCloseEmptyElement) => true,
        (SgmlEvent::EndTag(x), SgmlEvent::EndTag(y)) => x@ == y@,
        (SgmlEvent::Character(x), SgmlEvent::Character(y)) => same_data(Some(x), Some(y)),
        _ => false,
    }
}

/// Whether every text of `e`, attribute values included, is an owned buffer.
pub open spec fn event_owned(e: SgmlEvent) -> bool {
    match e {
        SgmlEvent::MarkupDeclaration(t) => t is Owned,
        SgmlEvent::ProcessingInstruction(t) => t is Owned,
        SgmlEvent::MarkedSection { status_keywords, section } => status_keywords is Owned && section is Owned,
        SgmlEvent::OpenStartTag(n) => n is Owned,
        SgmlEvent::Attribute(n, v) => n is Owned && (v matches Some(d) ==> d.spec_owned()),
        SgmlEvent::CloseStartTag => true,
        SgmlEvent::XmlCloseEmptyElement => true,
        SgmlEvent::EndTag(n) => n is Owned,
        SgmlEvent::Character(d) => d.spec_owned(),
    }
}

/// How an attribute value is written after its name: in `"` when neither `"` nor an
/// escaped `&` is needed, else in `'` when the value holds no `'`, else in `"` with `"`
/// written `&#34;`. A `&` is written `&#38;` only in final data that holds one.
pub open spec fn attribute_value(v: Seq<char>, verbatim: bool) -> Seq<char> {
    let amp = verbatim && v.contains('&');
    if !amp && !v.contains('"') {
        seq!['=', '"'] + v + seq!['"']
    } else if !amp && !v.contains('\'') {
        seq!['=', '\''] + v + seq!['\'']
    } else {
        seq!['=', '"'] + escape_chars(v, true, amp) + seq!['"']
    }
}

/// The display form of an event.
pub open spec fn display(e: SgmlEvent) -> Seq<char> {
    match e {
        SgmlEvent::MarkupDeclaration(d) => d@,
        SgmlEvent::ProcessingInstruction(d) => d@,
        SgmlEvent::MarkedSection { status_keywords, section } => seq!['<', '!', '[']
            + status_keywords@ + seq!['['] + section@ + seq![']', ']', '>'],
        SgmlEvent::OpenStartTag(n) => seq!['<'] + n@,
        SgmlEvent::Attribute(n, None) => n@,
        SgmlEvent::Attribute(n, Some(d)) => n@ + attribute_value(d.spec_text(), d.spec_verbatim()),
        SgmlEvent::CloseStartTag => seq!['>'],
        SgmlEvent::XmlCloseEmptyElement => seq!['/', '>'],
        SgmlEvent::EndTag(n) => seq!['<', '/'] + n@ + seq!['>'],
        SgmlEvent::Character(d) => escape_chars(d.spec_text(), false, d.spec_verbatim()),
    }
}

proof fn lemma_escaped_has_no_quote(v: Seq<char>, amp: bool)
    ensures
        !escape_chars(v, true, amp).contains('"'),
    decreases v.len(),
{
    if v.len() > 0 {
        lemma_escaped_has_no_quote(v.drop_last(), amp);
        let head = escape_chars(v.drop_last(), true, amp);
        let tail = escape_char(v.last(), true, amp);
        assert forall|i: int| 0 <= i < head.len() + tail.len() implies (head + tail)[i] != '"' by {
            if i < head.len() {
                assert((head + tail)[i] == head[i]);
                assert(!head.contains('"'));
            } else {
                assert((head + tail)[i] == tail[i - head.len()]);
            }
        }
    }
}

/// An attribute value in final data that holds `&` and `"` but no `'` is written in
/// `"`, with `&` as `&#38;` and `"` as `&#34;`, so that no bare `"` is left inside; in
/// unresolved data the same value is written in `'`, with `&` as it stands.
pub proof fn lemma_attribute_escaping(v: Seq<char>)
    requires
        v.contains('&'),
        v.contains('"'),
        !v.contains('\''),
    ensures
        attribute_value(v, true) == seq!['=', '"'] + escape_chars(v, true, true) + seq!['"'],
        !escape_chars(v, true, true).contains('"'),
        attribute_value(v, false) == seq!['=', '\''] + v + seq!['\''],
{
    lemma_escaped_has_no_quote(v, true);
}

fn owned_text(t: Text) -> (r: Text<'static>)
    ensures
        r@ == t@,
        r is Owned,
{
    t.into_owned()
}

fn owned_data(d: Option<Data>) -> (r: Option<Data<'static>>)
    ensures
        same_data(r, d),
        r matches Some(x) ==> x.spec_owned(),
{
    match d {
        Some(x) => Some(x.into_owned()),
        None => None,
    }
}

/// Writes an attribute value as `attribute_value` says.
fn write_attribute_value(out: &mut Vec<char>, d: &Data)
    ensures
        final(out)@ == old(out)@ + attribute_value(d.spec_text(), d.spec_verbatim()),
{
    let v = chars_of(d.as_str());
    let amp = d.verbatim() && contains_char(&v, '&');
    let ghost w = d.spec_text();
    if !amp && !contains_char(&v, '"') {
        push_all(out, &['=', '"']);
        push_all(out, v.as_slice());
        push_all(out, &['"']);
        assert(final(out)@ =~= old(out)@ + (seq!['=', '"'] + w + seq!['"']));
    } else if !amp && !contains_char(&v, '\'') {
        push_all(out, &['=', '\'']);
        push_all(out, v.as_slice());
        push_all(out, &['\'']);
        assert(final(out)@ =~= old(out)@ + (seq!['=', '\''] + w + seq!['\'']));
    } else {
        let e = escaped(&v, true, amp);
        push_all(out, &['=', '"']);
        push_all(out, e.as_slice());
        push_all(out, &['"']);
        assert(final(out)@ =~= old(out)@ + (seq!['=', '"'] + escape_chars(w, true, amp) + seq!['"']));
    }
}

impl<'a> SgmlEvent<'a> {
    /// The same event, holding owned buffers only.
    pub fn into_owned(self) -> (r: SgmlEvent<'static>)
        ensures
            same_event(r, self),
            event_owned(r),
    {
        match self {
            SgmlEvent::MarkupDeclaration(s) => SgmlEvent::MarkupDeclaration(owned_text(s)),
            SgmlEvent::ProcessingInstruction(s) => SgmlEvent::ProcessingInstruction(owned_text(s)),
            SgmlEvent::MarkedSection { status_keywords, section } => SgmlEvent::MarkedSection {
                status_keywords: owned_text(status_keywords),
                section: owned_text(section),
            },
            SgmlEvent::OpenStartTag(n) => SgmlEvent::OpenStartTag(owned_text(n)),
            SgmlEvent::Attribute(k, v) => SgmlEvent::Attribute(owned_text(k), owned_data(v)),
            SgmlEvent::CloseStartTag => SgmlEvent::CloseStartTag,
            SgmlEvent::XmlCloseEmptyElement => SgmlEvent::XmlCloseEmptyElement,
            SgmlEvent::EndTag(n) => SgmlEvent::EndTag(owned_text(n)),
            SgmlEvent::Character(d) => SgmlEvent::Character(d.into_owned()),
        }
    }

    /// The display form of the event, as markup.
    pub fn to_string(&self) -> (r: String)
        ensures
            r@ == display(*self),
    {
        let mut out: Vec<char> = Vec::new();
        match self {
            SgmlEvent::MarkupDeclaration(d) => {
                push_all(&mut out, chars_of(d.as_str()).as_slice());
            },
            SgmlEvent::ProcessingInstruction(d) => {
                push_all(&mut out, chars_of(d.as_str()).as_slice());
            },
            SgmlEvent::MarkedSection { status_keywords, section } => {
                push_all(&mut out, &['<', '!', '[']);
                push_all(&mut out, chars_of(status_keywords.as_str()).as_slice());
                push_all(&mut out, &['[']);
                push_all(&mut out, chars_of(section.as_str()).as_slice());
                push_all(&mut out, &[']', ']', '>']);
            },
            SgmlEvent::OpenStartTag(n) => {
                push_all(&mut out, &['<']);
                push_all(&mut out, chars_of(n.as_str()).as_slice());
            },
            SgmlEvent::Attribute(n, v) => {
                push_all(&mut out, chars_of(n.as_str()).as_slice());
                match v {
                    Some(d) => write_attribute_value(&mut out, d),
                    None => {},
                }
            },
            SgmlEvent::CloseStartTag => {
                push_all(&mut out, &['>']);
            },
            SgmlEvent::XmlCloseEmptyElement => {
                push_all(&mut out, &['/', '>']);
            },
            SgmlEvent::EndTag(n) => {
                push_all(&mut out, &['<', '/']);
                push_all(&mut out, chars_of(n.as_str()).as_slice());
                push_all(&mut out, &['>']);
            },
            SgmlEvent::Character(d) => {
                let v = chars_of(d.as_str());
                push_all(&mut out, escaped(&v, false, d.verbatim()).as_slice());
            },
        }
        assert(out@ =~= display(*self));
        string_of(out.as_slice())
    }
}

} // verus!
