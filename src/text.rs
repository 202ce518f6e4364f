//! Borrowed-or-owned text and the character-level helpers shared by the library.
use vstd::prelude::*;
use vstd::utf8::encode_utf8;
use vstd::utf8::encode_scalar;
use vstd::string::StringSliceAdditionalSpecFns;
use vstd::utf8::{decode_utf8, encode_utf8_decode_utf8, encode_utf8_first_scalar, encode_utf8_valid_utf8, is_char_boundary};

verus! {

/// Text that either borrows from the caller's input or owns a fresh buffer.
#[derive(Debug)]
pub enum Text<'a> {
    Borrowed(&'a str),
    Owned(String),
}

impl<'a> View for Text<'a> {
    type V = Seq<char>;

    open spec fn view(&self) -> Seq<char> {
        match self {
            Text::Borrowed(s) => s@,
            Text::Owned(s) => s@,
        }
    }
}

impl<'a> Text<'a> {
    /// The characters of the text.
    pub fn as_str(&self) -> (r: &str)
        ensures
            r@ == self@,
    {
        match self {
            Text::Borrowed(s) => s,
            Text::Owned(s) => s.as_str(),
        }
    }

    /// Whether the text borrows from the input it was made from.
    pub fn is_borrowed(&self) -> (r: bool)
        ensures
            r == self is Borrowed,
    {
        match self {
            Text::Borrowed(_) => true,
            Text::Owned(_) => false,
        }
    }

    /// Widens the text to an owned buffer holding the same characters.
    pub fn into_owned(self) -> (r: Text<'static>)
        ensures
            r@ == self@,
            r is Owned,
    {
        match self {
            Text::Borrowed(s) => Text::Owned(s.to_owned()),
            Text::Owned(s) => Text::Owned(s),
        }
    }
}

/// Whether two character vectors hold the same characters.
fn same_chars(a: &Vec<char>, b: &Vec<char>) -> (r: bool)
    ensures
        r == (a@ == b@),
{
    if a.len() != b.len() {
        return false;
    }
    let mut k: usize = 0;
    while k < a.len()
        invariant
            k <= a.len() == b.len(),
            forall|j: int| 0 <= j < k ==> a@[j] == b@[j],
        decreases a.len() - k,
    {
        if a[k] != b[k] {
            return false;
        }
        k = k + 1;
    }
    assert(a@ =~= b@);
    true
}

/// Two texts are equal when they hold the same characters, borrowed or owned.
impl<'a, 'b> PartialEq<Text<'b>> for Text<'a> {
    fn eq(&self, other: &Text<'b>) -> (r: bool) {
        same_chars(&chars_of(self.as_str()), &chars_of(other.as_str()))
    }
}

impl<'a, 'b> vstd::std_specs::cmp::PartialEqSpecImpl<Text<'b>> for Text<'a> {
    open spec fn obeys_eq_spec() -> bool {
        true
    }

    open spec fn eq_spec(&self, other: &Text<'b>) -> bool {
        self@ == other@
    }
}

impl<'a> Eq for Text<'a> {
}

/// A text borrowed from `s`.
impl<'a> From<&'a str> for Text<'a> {
    fn from(s: &'a str) -> (r: Text<'a>) {
        Text::Borrowed(s)
    }
}

impl<'a> vstd::std_specs::convert::FromSpecImpl<&'a str> for Text<'a> {
    open spec fn obeys_from_spec() -> bool {
        true
    }

    open spec fn from_spec(s: &'a str) -> Text<'a> {
        Text::Borrowed(s)
    }
}

/// A text owning `s`.
impl<'a> From<String> for Text<'a> {
    fn from(s: String) -> (r: Text<'a>) {
        Text::Owned(s)
    }
}

impl<'a> vstd::std_specs::convert::FromSpecImpl<String> for Text<'a> {
    open spec fn obeys_from_spec() -> bool {
        true
    }

    open spec fn from_spec(s: String) -> Text<'a> {
        Text::Owned(s)
    }
}

/// Relies on `str::chars`, collected into a vector: the characters of `s`, in order.
#[verifier::external_body]
pub(crate) fn chars_of(s: &str) -> (r: Vec<char>)
    ensures
        r@ == s@,
{
    s.chars().collect()
}

/// Relies on `String::from_iter` over chars: a string of exactly these characters.
#[verifier::external_body]
pub(crate) fn string_of(v: &[char]) -> (r: String)
    ensures
        r@ == v@,
{
    v.iter().collect()
}

/// Appends the characters of `v` to `out`.
pub(crate) fn push_all(out: &mut Vec<char>, v: &[char])
    ensures
        final(out)@ == old(out)@ + v@,
{
    let mut k: usize = 0;
    while k < v.len()
        invariant
            k <= v.len(),
            out@ == old(out)@ + v@.subrange(0, k as int),
        decreases v.len() - k,
    {
        out.push(v[k]);
        k = k + 1;
        assert(out@ =~= old(out)@ + v@.subrange(0, k as int));
    }
    assert(v@.subrange(0, v.len() as int) =~= v@);
}

/// Whether `c` occurs in `s`.
pub(crate) fn contains_char(s: &Vec<char>, c: char) -> (r: bool)
    ensures
        r == s@.contains(c),
{
    let mut k: usize = 0;
    while k < s.len()
        invariant
            k <= s.len(),
            forall|j: int| 0 <= j < k ==> s@[j] != c,
        decreases s.len() - k,
    {
        if s[k] == c {
            return true;
        }
        k = k + 1;
    }
    false
}

/// The characters `s[a..b]` as a string.
pub(crate) fn text_of(s: &Vec<char>, a: usize, b: usize) -> (r: String)
    requires
        a <= b <= s.len(),
    ensures
        r@ == s@.subrange(a as int, b as int),
{
    let mut v: Vec<char> = Vec::new();
    let mut k: usize = a;
    while k < b
        invariant
            a <= k <= b <= s.len(),
            v@ == s@.subrange(a as int, k as int),
        decreases b - k,
    {
        v.push(s[k]);
        k = k + 1;
        assert(v@ =~= s@.subrange(a as int, k as int));
    }
    string_of(v.as_slice())
}

/// Number of bytes of the UTF-8 encoding of `s`.
pub open spec fn byte_len(s: Seq<char>) -> nat {
    encode_utf8(s).len()
}

pub proof fn lemma_encode_append(a: Seq<char>, b: Seq<char>)
    ensures
        encode_utf8(a + b) == encode_utf8(a) + encode_utf8(b),
    decreases a.len(),
{
    if a.len() == 0 {
        assert(a + b =~= b);
    } else {
        lemma_encode_append(a.drop_first(), b);
        assert((a + b).drop_first() =~= a.drop_first() + b);
    }
}

pub proof fn lemma_byte_len_push(s: Seq<char>, c: char)
    ensures
        byte_len(s.push(c)) == byte_len(s) + encode_scalar(c as u32).len(),
{
    lemma_encode_append(s, seq![c]);
    assert(s.push(c) =~= s + seq![c]);
    assert(seq![c].drop_first() =~= Seq::<char>::empty());
    assert(encode_utf8(seq![c]) == encode_scalar(c as u32) + encode_utf8(seq![c].drop_first()));
    assert(encode_utf8(Seq::<char>::empty()) =~= Seq::<u8>::empty());
    assert(encode_utf8(seq![c]) =~= encode_scalar(c as u32));
}

/// The byte offset of every character index of `s` is a character boundary of its
/// UTF-8 encoding.
pub proof fn lemma_char_boundary(s: Seq<char>, k: int)
    requires
        0 <= k <= s.len(),
    ensures
        is_char_boundary(encode_utf8(s), byte_len(s.take(k)) as int),
    decreases k,
{
    encode_utf8_valid_utf8(s);
    if k == 0 {
        assert(s.take(0) =~= Seq::<char>::empty());
    } else {
        let bytes = encode_utf8(s);
        encode_utf8_first_scalar(s);
        assert(vstd::utf8::pop_first_scalar(bytes) =~= encode_utf8(s.drop_first()));
        lemma_char_boundary(s.drop_first(), k - 1);
        assert(s.take(k).drop_first() =~= s.drop_first().take(k - 1));
        assert(encode_utf8(s.take(k)) == encode_scalar(s.take(k)[0] as u32) + encode_utf8(s.take(k).drop_first()));
    }
}

/// Whether `offs` holds the byte offset of every character index of `input`, the end
/// included.
pub open spec fn offsets_of(input: &str, offs: Seq<usize>) -> bool {
    &&& offs.len() == input@.len() + 1
    &&& forall|k: int| 0 <= k <= input@.len() ==> #[trigger] offs[k] == byte_len(input@.take(k))
}

/// The byte offset of every character index of `input`, the end included.
pub(crate) fn byte_offsets(input: &str, s: &Vec<char>) -> (r: Vec<usize>)
    requires
        s@ == input@,
    ensures
        offsets_of(input, r@),
{
    let total = input.as_bytes().len();
    let mut r: Vec<usize> = Vec::new();
    let mut b: usize = 0;
    let mut k: usize = 0;
    assert(s@.take(0) =~= Seq::<char>::empty());
    while k < s.len()
        invariant
            k <= s.len(),
            s@ == input@,
            total == byte_len(s@),
            b == byte_len(s@.take(k as int)),
            r@.len() == k,
            forall|j: int| 0 <= j < k ==> #[trigger] r@[j] == byte_len(input@.take(j)),
        decreases s.len() - k,
    {
        r.push(b);
        proof {
            lemma_byte_len_push(s@.take(k as int), s@[k as int]);
            assert(s@.take(k as int).push(s@[k as int]) =~= s@.take(k + 1));
            lemma_encode_append(s@.take(k + 1), s@.skip(k + 1));
            assert(s@.take(k + 1) + s@.skip(k + 1) =~= s@);
        }
        b = b + utf8_width(s[k]);
        k = k + 1;
    }
    r.push(b);
    r
}

/// The characters `a..b` of `input`, borrowed from it.
pub(crate) fn slice_of<'a>(input: &'a str, offs: &Vec<usize>, a: usize, b: usize) -> (r: &'a str)
    requires
        offsets_of(input, offs@),
        a <= b <= input@.len(),
    ensures
        r@ == input@.subrange(a as int, b as int),
{
    let ghost s = input@;
    proof {
        lemma_char_boundary(s, b as int);
        lemma_encode_append(s.take(b as int), s.skip(b as int));
        assert(s.take(b as int) + s.skip(b as int) =~= s);
    }
    let (head, _) = input.split_at(offs[b]);
    proof {
        assert(head.spec_bytes() =~= encode_utf8(s.take(b as int)));
        encode_utf8_decode_utf8(head@);
        encode_utf8_decode_utf8(s.take(b as int));
        assert(head@ == s.take(b as int));
        let h = s.take(b as int);
        assert(h.take(a as int) =~= s.take(a as int));
        lemma_char_boundary(h, a as int);
        lemma_encode_append(h.take(a as int), h.skip(a as int));
        assert(h.take(a as int) + h.skip(a as int) =~= h);
    }
    let (_, mid) = head.split_at(offs[a]);
    proof {
        let h = s.take(b as int);
        assert(mid.spec_bytes() =~= encode_utf8(h.skip(a as int)));
        encode_utf8_decode_utf8(mid@);
        encode_utf8_decode_utf8(h.skip(a as int));
        assert(h.skip(a as int) =~= s.subrange(a as int, b as int));
    }
    mid
}

/// Number of bytes that `c` takes in UTF-8.
pub fn utf8_width(c: char) -> (r: usize)
    ensures
        r == encode_scalar(c as u32).len(),
        1 <= r <= 4,
{
    let v = c as u32;
    if v <= 0x7F {
        1
    } else if v <= 0x7FF {
        2
    } else if v <= 0xFFFF {
        proof {
            vstd::utf8::char_is_scalar(c);
        }
        3
    } else {
        4
    }
}

} // verus!
