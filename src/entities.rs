//! Expansion of character references (`&#60;`), entity references (`&foo;`)
//! and parameter-entity references (`%foo;`).
use vstd::prelude::*;
use crate::text::{
    byte_len, chars_of, contains_char, lemma_byte_len_push, lemma_encode_append, push_all, string_of, text_of,
    utf8_width, Text,
};

verus! {

/// Largest code that the scanner keeps exact; anything at or above it is no scalar value.
pub const CODE_CAP: u32 = 0x110000;

/// Whether `c` may start a name: an ASCII letter, `_` or `:`.
pub open spec fn name_start(c: char) -> bool {
    ('a' <= c && c <= 'z') || ('A' <= c && c <= 'Z') || c == '_' || c == ':'
}

/// Whether `c` may continue a name: a name-start character, an ASCII digit, `-` or `.`.
pub open spec fn name_char(c: char) -> bool {
    name_start(c) || ('0' <= c && c <= '9') || c == '-' || c == '.'
}

pub open spec fn digit_char(c: char) -> bool {
    '0' <= c && c <= '9'
}

pub open spec fn hex_char(c: char) -> bool {
    digit_char(c) || ('a' <= c && c <= 'f') || ('A' <= c && c <= 'F')
}

pub open spec fn hex_value(c: char) -> nat {
    if digit_char(c) {
        (c as u32 - '0' as u32) as nat
    } else if 'a' <= c && c <= 'f' {
        (c as u32 - 'a' as u32 + 10) as nat
    } else {
        (c as u32 - 'A' as u32 + 10) as nat
    }
}

/// Number of consecutive name characters in `s` from index `k` on.
pub open spec fn name_run(s: Seq<char>, k: int) -> nat
    decreases s.len() - k,
{
    if 0 <= k < s.len() && name_char(s[k]) {
        1 + name_run(s, k + 1)
    } else {
        0
    }
}

/// Number of consecutive ASCII digits in `s` from index `k` on.
pub open spec fn digit_run(s: Seq<char>, k: int) -> nat
    decreases s.len() - k,
{
    if 0 <= k < s.len() && digit_char(s[k]) {
        1 + digit_run(s, k + 1)
    } else {
        0
    }
}

/// Whether every character of `s` is a hexadecimal digit.
pub open spec fn all_hex(s: Seq<char>) -> bool {
    forall|i: int| 0 <= i < s.len() ==> hex_char(#[trigger] s[i])
}

/// The number written by the digits `s` in base `radix`.
pub open spec fn number(s: Seq<char>, radix: nat) -> nat
    decreases s.len(),
{
    if s.len() == 0 {
        0
    } else {
        number(s.drop_last(), radix) * radix + hex_value(s.last())
    }
}

/// Whether `n` is a Unicode scalar value.
pub open spec fn scalar(n: nat) -> bool {
    n < 0x110000 && !(0xD800 <= n && n <= 0xDFFF)
}

/// The character whose code is `n`.
pub open spec fn char_with_code(n: nat) -> char {
    choose|c: char| #[trigger] (c as u32) == n
}

/// What a reference resolves to before any lookup.
#[derive(Debug)]
pub enum Reference {
    /// A name to look up, as the index range of its characters (a leading `#` included).
    Named(usize, usize),
    /// A character given by its code.
    Character(char),
}

/// The character-reference form after a trigger: `#` then decimal digits, or `#x` / `#X`
/// then name characters read as hexadecimal. Yields the reference and the index after it.
pub open spec fn char_ref(s: Seq<char>, p: int) -> Option<(Reference, int)> {
    if 0 <= p < s.len() && s[p] == '#' {
        let d = digit_run(s, p + 1);
        if d > 0 {
            let code = number(s.subrange(p + 1, p + 1 + d), 10);
            let end = p + 1 + d;
            if scalar(code) {
                Some((Reference::Character(char_with_code(code)), end))
            } else {
                Some((Reference::Named(p as usize, end as usize), end))
            }
        } else if p + 1 < s.len() && (s[p + 1] == 'x' || s[p + 1] == 'X') && name_run(s, p + 2) > 0 {
            let end = p + 2 + name_run(s, p + 2);
            let digits = s.subrange(p + 2, end);
            if all_hex(digits) && scalar(number(digits, 16)) {
                Some((Reference::Character(char_with_code(number(digits, 16))), end))
            } else {
                Some((Reference::Named(p as usize, end as usize), end))
            }
        } else {
            None
        }
    } else {
        None
    }
}

/// The entity-name form after a trigger: an optional `#`, a name-start character, then
/// name characters.
pub open spec fn entity_ref(s: Seq<char>, p: int) -> Option<(Reference, int)> {
    let q = if 0 <= p < s.len() && s[p] == '#' { p + 1 } else { p };
    if 0 <= q < s.len() && name_start(s[q]) {
        let end = q + 1 + name_run(s, q + 1);
        Some((Reference::Named(p as usize, end as usize), end))
    } else {
        None
    }
}

/// The reference right after a trigger at index `p - 1`, with the index after it and its
/// optional `;`. `general` selects the grammar of general references (character references
/// first, then entity names); otherwise only entity names are recognised.
pub open spec fn match_ref(s: Seq<char>, p: int, general: bool) -> Option<(Reference, int)> {
    let m = if general {
        match char_ref(s, p) {
            Some(x) => Some(x),
            None => entity_ref(s, p),
        }
    } else {
        entity_ref(s, p)
    };
    match m {
        Some((r, e)) => Some((r, if 0 <= e < s.len() && s[e] == ';' { e + 1 } else { e })),
        None => None,
    }
}

pub fn is_name_start_char(c: char) -> (r: bool)
    ensures
        r == name_start(c),
{
    ('a' <= c && c <= 'z') || ('A' <= c && c <= 'Z') || c == '_' || c == ':'
}

pub fn is_name_char(c: char) -> (r: bool)
    ensures
        r == name_char(c),
{
    is_name_start_char(c) || ('0' <= c && c <= '9') || c == '-' || c == '.'
}

fn hex_digit(c: char) -> (r: Option<u32>)
    ensures
        r is Some <==> hex_char(c),
        r is Some ==> r->0 == hex_value(c) && r->0 < 16,
{
    if '0' <= c && c <= '9' {
        Some(c as u32 - '0' as u32)
    } else if 'a' <= c && c <= 'f' {
        Some(c as u32 - 'a' as u32 + 10)
    } else if 'A' <= c && c <= 'F' {
        Some(c as u32 - 'A' as u32 + 10)
    } else {
        None
    }
}

/// Relies on `char::from_u32`: `Some` exactly for scalar values, holding the character of
/// that code.
#[verifier::external_body]
fn char_from_code(code: u32) -> (r: Option<char>)
    ensures
        r is Some <==> scalar(code as nat),
        r is Some ==> r->0 as u32 == code,
{
    char::from_u32(code)
}

proof fn lemma_name_run_bound(s: Seq<char>, k: int)
    requires
        0 <= k <= s.len(),
    ensures
        k + name_run(s, k) <= s.len(),
        forall|i: int| k <= i < k + name_run(s, k) ==> name_char(#[trigger] s[i]),
        k + name_run(s, k) < s.len() ==> !name_char(s[k + name_run(s, k)]),
    decreases s.len() - k,
{
    if k < s.len() && name_char(s[k]) {
        lemma_name_run_bound(s, k + 1);
    }
}

proof fn lemma_digit_run_bound(s: Seq<char>, k: int)
    requires
        0 <= k <= s.len(),
    ensures
        k + digit_run(s, k) <= s.len(),
        forall|i: int| k <= i < k + digit_run(s, k) ==> digit_char(#[trigger] s[i]),
        k + digit_run(s, k) < s.len() ==> !digit_char(s[k + digit_run(s, k)]),
    decreases s.len() - k,
{
    if k < s.len() && digit_char(s[k]) {
        lemma_digit_run_bound(s, k + 1);
    }
}

/// Index after the run of name characters in `s` that starts at `k`.
fn skip_names(s: &Vec<char>, k: usize) -> (r: usize)
    requires
        k <= s.len(),
    ensures
        r == k + name_run(s@, k as int),
        r <= s.len(),
{
    let mut i: usize = k;
    while i < s.len() && is_name_char(s[i])
        invariant
            k <= i <= s.len(),
            name_run(s@, k as int) == (i - k) + name_run(s@, i as int),
        decreases s.len() - i,
    {
        i = i + 1;
    }
    i
}

/// Index after the run of ASCII digits in `s` that starts at `k`.
fn skip_digits(s: &Vec<char>, k: usize) -> (r: usize)
    requires
        k <= s.len(),
    ensures
        r == k + digit_run(s@, k as int),
        r <= s.len(),
{
    let mut i: usize = k;
    while i < s.len() && '0' <= s[i] && s[i] <= '9'
        invariant
            k <= i <= s.len(),
            digit_run(s@, k as int) == (i - k) + digit_run(s@, i as int),
        decreases s.len() - i,
    {
        i = i + 1;
    }
    i
}

proof fn lemma_capped_step(a: nat, radix: nat, d: nat)
    requires
        radix >= 1,
    ensures
        min_cap(min_cap(a) * radix + d) == min_cap(a * radix + d),
{
    if a >= 0x110000 {
        assert(a * radix >= 0x110000 * radix) by (nonlinear_arith)
            requires a >= 0x110000, radix >= 1;
        assert(0x110000 * radix >= 0x110000) by (nonlinear_arith)
            requires radix >= 1;
    }
}

pub open spec fn min_cap(n: nat) -> nat {
    if n < 0x110000 { n } else { 0x110000 }
}

/// The number written by the digits `s[a..b]` in base `radix`, capped at
/// `CODE_CAP`; `None` if one of them is no digit of that base.
fn read_number(s: &Vec<char>, a: usize, b: usize, radix: u32) -> (r: Option<u32>)
    requires
        a <= b <= s.len(),
        radix == 10 || radix == 16,
        radix == 10 ==> forall|i: int| a <= i < b ==> digit_char(#[trigger] s@[i]),
    ensures
        r is Some <==> all_hex(s@.subrange(a as int, b as int)),
        r is Some ==> r->0 == min_cap(number(s@.subrange(a as int, b as int), radix as nat)),
{
    let mut v: u32 = 0;
    let mut i: usize = a;
    while i < b
        invariant
            a <= i <= b <= s.len(),
            radix == 10 || radix == 16,
            radix == 10 ==> forall|j: int| a <= j < b ==> digit_char(#[trigger] s@[j]),
            all_hex(s@.subrange(a as int, i as int)),
            v == min_cap(number(s@.subrange(a as int, i as int), radix as nat)),
        decreases b - i,
    {
        match hex_digit(s[i]) {
            None => {
                assert(s@.subrange(a as int, b as int)[i - a] == s@[i as int]);
                return None;
            },
            Some(d) => {
                let ghost prev = s@.subrange(a as int, i as int);
                let ghost next = s@.subrange(a as int, i + 1);
                assert(next.drop_last() =~= prev);
                assert(next.last() == s@[i as int]);
                proof {
                    lemma_capped_step(number(prev, radix as nat), radix as nat, d as nat);
                }
                let w: u64 = v as u64 * radix as u64 + d as u64;
                v = if w < CODE_CAP as u64 { w as u32 } else { CODE_CAP };
                assert forall|j: int| 0 <= j < next.len() implies hex_char(#[trigger] next[j]) by {
                    if j < prev.len() {
                        assert(next[j] == prev[j]);
                    }
                }
                i = i + 1;
            },
        }
    }
    Some(v)
}

/// Whether an executable match agrees with a specified one.
pub open spec fn same_match(r: Option<(Reference, usize)>, m: Option<(Reference, int)>) -> bool {
    match (r, m) {
        (None, None) => true,
        (Some((x, e)), Some((y, f))) => x == y && e as int == f,
        _ => false,
    }
}

proof fn lemma_code_char(c: char, n: nat)
    requires
        c as u32 == n,
    ensures
        c == char_with_code(n),
{
    let d = char_with_code(n);
    assert(d as u32 == n);
}

/// Resolves a numeric code found at `s[p..end]` (the `#` at `p`).
fn resolve_code(code: u32, p: usize, end: usize) -> (r: Reference)
    ensures
        scalar(code as nat) ==> r == Reference::Character(char_with_code(code as nat)),
        !scalar(code as nat) ==> r == Reference::Named(p, end),
{
    match char_from_code(code) {
        Some(c) => {
            proof {
                lemma_code_char(c, code as nat);
            }
            Reference::Character(c)
        },
        None => Reference::Named(p, end),
    }
}

fn char_reference(s: &Vec<char>, p: usize) -> (r: Option<(Reference, usize)>)
    requires
        p <= s.len(),
    ensures
        same_match(r, char_ref(s@, p as int)),
        r matches Some((_, e)) ==> p < e <= s.len(),
        r matches Some((Reference::Named(x, y), _)) ==> p <= x <= y <= s.len(),
{
    if p < s.len() && s[p] == '#' {
        let d_end = skip_digits(s, p + 1);
        proof {
            lemma_digit_run_bound(s@, p + 1);
        }
        if d_end > p + 1 {
            let code = match read_number(s, p + 1, d_end, 10) {
                Some(v) => v,
                None => {
                    assert(false);
                    0
                },
            };
            Some((resolve_code(code, p, d_end), d_end))
        } else if p + 1 < s.len() && (s[p + 1] == 'x' || s[p + 1] == 'X') {
            let end = skip_names(s, p + 2);
            if end > p + 2 {
                match read_number(s, p + 2, end, 16) {
                    Some(code) => Some((resolve_code(code, p, end), end)),
                    None => Some((Reference::Named(p, end), end)),
                }
            } else {
                None
            }
        } else {
            None
        }
    } else {
        None
    }
}

fn entity_reference(s: &Vec<char>, p: usize) -> (r: Option<(Reference, usize)>)
    requires
        p <= s.len(),
    ensures
        same_match(r, entity_ref(s@, p as int)),
        r matches Some((_, e)) ==> p < e <= s.len(),
        r matches Some((Reference::Named(x, y), _)) ==> p <= x <= y <= s.len(),
{
    let q = if p < s.len() && s[p] == '#' { p + 1 } else { p };
    if q < s.len() && is_name_start_char(s[q]) {
        let end = skip_names(s, q + 1);
        Some((Reference::Named(p, end), end))
    } else {
        None
    }
}

/// The reference right after a trigger that stands at `p - 1`, with the index after it.
fn match_reference(s: &Vec<char>, p: usize, general: bool) -> (r: Option<(Reference, usize)>)
    requires
        p <= s.len(),
    ensures
        same_match(r, match_ref(s@, p as int, general)),
        r matches Some((_, e)) ==> p < e <= s.len(),
        r matches Some((Reference::Named(x, y), _)) ==> p <= x <= y <= s.len(),
{
    let m = if general {
        match char_reference(s, p) {
            Some(x) => Some(x),
            None => entity_reference(s, p),
        }
    } else {
        entity_reference(s, p)
    };
    match m {
        Some((r, e)) => {
            let end = if e < s.len() && s[e] == ';' { e + 1 } else { e };
            Some((r, end))
        },
        None => None,
    }
}

/// An unresolved reference: the lookup gave no replacement for `entity`, found at the
/// byte range `position` of the expanded text.
#[derive(Debug, PartialEq)]
pub struct EntityError {
    pub entity: String,
    pub position: std::ops::Range<usize>,
}

/// A source of replacement text for entity names.
pub trait EntityLookup {
    /// Whether the lookup may be called on any name and answers by the name alone.
    spec fn ready(&self) -> bool;

    /// The replacement text for `name`, if there is one.
    spec fn resolves(&self, name: Seq<char>) -> Option<Seq<char>>;

    fn lookup(&self, name: &str) -> (r: Option<String>)
        requires
            self.ready(),
        ensures
            opt_chars(r) == self.resolves(name@),
    ;
}

/// The characters of an optional string.
pub open spec fn opt_chars(r: Option<String>) -> Option<Seq<char>> {
    match r {
        Some(s) => Some(s@),
        None => None,
    }
}

/// The lookup that resolves no name.
#[derive(Clone, Copy, Debug, Default)]
pub struct NoEntities;

impl EntityLookup for NoEntities {
    open spec fn ready(&self) -> bool {
        true
    }

    open spec fn resolves(&self, name: Seq<char>) -> Option<Seq<char>> {
        None
    }

    fn lookup(&self, name: &str) -> (r: Option<String>) {
        None
    }
}

/// Whether `f` may be called on every name.
pub open spec fn callable<F: Fn(&str) -> Option<String>>(f: F) -> bool {
    forall|s: &str| call_requires(f, (s,))
}

/// Whether every answer of `f` depends on the characters of the name alone. Lookups may
/// keep state, but the expansion's contract speaks of one answer per name, so only those
/// whose answers do not vary with that state are admitted.
pub open spec fn answers_by_name<F: Fn(&str) -> Option<String>>(f: F) -> bool {
    forall|s1: &str, s2: &str, v1: Option<String>, v2: Option<String>|
        s1@ == s2@ && call_ensures(f, (s1,), v1) && call_ensures(f, (s2,), v2) ==> opt_chars(v1)
            == opt_chars(v2)
}

/// The replacement text that `f` gives for `name`.
pub open spec fn lookup_of<F: Fn(&str) -> Option<String>>(f: F, name: Seq<char>) -> Option<Seq<char>> {
    if exists|s: &str, v: Option<String>| s@ == name && call_ensures(f, (s,), v) {
        let (s, v) = choose|s: &str, v: Option<String>| s@ == name && call_ensures(f, (s,), v);
        opt_chars(v)
    } else {
        None
    }
}

/// A lookup given by a function from names to replacement text.
pub struct LookupFn<F: Fn(&str) -> Option<String>>(pub F);

impl<F: Fn(&str) -> Option<String>> EntityLookup for LookupFn<F> {
    open spec fn ready(&self) -> bool {
        callable(self.0) && answers_by_name(self.0)
    }

    open spec fn resolves(&self, name: Seq<char>) -> Option<Seq<char>> {
        lookup_of(self.0, name)
    }

    fn lookup(&self, name: &str) -> (r: Option<String>) {
        let r = (self.0)(name);
        proof {
            assert(exists|s: &str, v: Option<String>| s@ == name@ && call_ensures(self.0, (s,), v));
        }
        r
    }
}

/// `r` with `x` put before its text.
pub open spec fn prepend(x: Seq<char>, r: Result<Seq<char>, (Seq<char>, int, int)>) -> Result<
    Seq<char>,
    (Seq<char>, int, int),
> {
    match r {
        Ok(o) => Ok(x + o),
        Err(e) => Err(e),
    }
}

/// Expansion of `s` from index `i` on: the text it yields, or the first unresolved name
/// with the character indices of its reference (trigger through optional `;`).
pub open spec fn expand_from(
    s: Seq<char>,
    i: int,
    prefix: char,
    general: bool,
    look: spec_fn(Seq<char>) -> Option<Seq<char>>,
) -> Result<Seq<char>, (Seq<char>, int, int)>
    decreases s.len() - i,
{
    if i < 0 || i >= s.len() {
        Ok(Seq::empty())
    } else if s[i] != prefix {
        prepend(seq![s[i]], expand_from(s, i + 1, prefix, general, look))
    } else {
        match match_ref(s, i + 1, general) {
            None => prepend(seq![prefix], expand_from(s, i + 1, prefix, general, look)),
            Some((r, e)) => if e <= i || e > s.len() {
                Ok(Seq::empty())
            } else {
                match r {
                    Reference::Character(c) => prepend(
                        seq![c],
                        expand_from(s, e, prefix, general, look),
                    ),
                    Reference::Named(a, b) => match look(s.subrange(a as int, b as int)) {
                        Some(v) => prepend(v, expand_from(s, e, prefix, general, look)),
                        None => Err((s.subrange(a as int, b as int), i, e)),
                    },
                }
            },
        }
    }
}

/// Expansion of the whole of `s`.
pub open spec fn expand_spec(
    s: Seq<char>,
    prefix: char,
    general: bool,
    look: spec_fn(Seq<char>) -> Option<Seq<char>>,
) -> Result<Seq<char>, (Seq<char>, int, int)> {
    expand_from(s, 0, prefix, general, look)
}

/// Whether `r`, returned for `text`, is the expansion `x`: the same text, borrowed from
/// `text` exactly when `prefix` never occurs in it; or the same unresolved name, with the
/// byte range of its reference.
pub open spec fn expansion_is<'a>(
    text: &'a str,
    prefix: char,
    r: Result<Text<'a>, EntityError>,
    x: Result<Seq<char>, (Seq<char>, int, int)>,
) -> bool {
    match (r, x) {
        (Ok(t), Ok(o)) => {
            &&& t@ == o
            &&& (t is Borrowed <==> !text@.contains(prefix))
            &&& t is Borrowed ==> t == Text::Borrowed(text)
        },
        (Err(e), Err((name, a, b))) => error_is(text@, e, name, a, b),
        _ => false,
    }
}

/// Whether `e` is the reference at character indices `a..b` of `s`: a trigger (`&` or
/// `%`) at `a`, the name right after it, and the byte range of `a..b`.
pub open spec fn reference_at(s: Seq<char>, e: EntityError, a: int, b: int) -> bool {
    &&& 0 <= a < b <= s.len()
    &&& (s[a] == '&' || s[a] == '%')
    &&& a + 1 + e.entity@.len() <= b
    &&& e.entity@ == s.subrange(a + 1, a + 1 + e.entity@.len())
    &&& e.position.start == byte_len(s.take(a))
    &&& e.position.end == byte_len(s.take(b))
}

/// Whether `e` names a reference of `s`, with that reference's byte range in `s`.
pub open spec fn reference_in(s: Seq<char>, e: EntityError) -> bool {
    exists|a: int, b: int| reference_at(s, e, a, b)
}

proof fn lemma_match_ref_bounds(s: Seq<char>, p: int, general: bool)
    requires
        0 <= p <= s.len() <= usize::MAX,
    ensures
        match_ref(s, p, general) matches Some((r, e)) ==> p < e <= s.len() && (r matches Reference::Named(x, y) ==> x == p && p <= y <= e),
{
    if p + 1 <= s.len() {
        lemma_digit_run_bound(s, p + 1);
        lemma_name_run_bound(s, p + 1);
    }
    if p + 2 <= s.len() {
        lemma_name_run_bound(s, p + 2);
    }
    lemma_name_run_bound(s, p);
}

/// An unresolved reference reported by expansion is a trigger in the text followed by
/// the reported name, ending no later than the reported end.
pub proof fn lemma_expand_error(
    s: Seq<char>,
    i: int,
    prefix: char,
    general: bool,
    look: spec_fn(Seq<char>) -> Option<Seq<char>>,
)
    requires
        0 <= i,
        s.len() <= usize::MAX,
    ensures
        expand_from(s, i, prefix, general, look) matches Err((name, a, b)) ==> {
            &&& i <= a < b <= s.len()
            &&& s[a] == prefix
            &&& a + 1 + name.len() <= b
            &&& name == s.subrange(a + 1, a + 1 + name.len())
        },
    decreases s.len() - i,
{
    if i < s.len() {
        if s[i] != prefix {
            lemma_expand_error(s, i + 1, prefix, general, look);
        } else {
            lemma_match_ref_bounds(s, i + 1, general);
            match match_ref(s, i + 1, general) {
                None => lemma_expand_error(s, i + 1, prefix, general, look),
                Some((r, e)) => {
                    if i < e <= s.len() {
                        lemma_expand_error(s, e, prefix, general, look);
                    }
                },
            }
        }
    }
}

/// Whether `e` reports the name `name` of the reference at character indices `a..b` of
/// `text`, as a byte range.
pub open spec fn error_is(text: Seq<char>, e: EntityError, name: Seq<char>, a: int, b: int) -> bool {
    &&& e.entity@ == name
    &&& e.position.start == byte_len(text.take(a))
    &&& e.position.end == byte_len(text.take(b))
}

/// Text in which the trigger character never occurs expands to itself.
pub proof fn lemma_expand_plain(
    s: Seq<char>,
    i: int,
    prefix: char,
    general: bool,
    look: spec_fn(Seq<char>) -> Option<Seq<char>>,
)
    requires
        0 <= i <= s.len(),
        !s.contains(prefix),
    ensures
        expand_from(s, i, prefix, general, look) == Ok::<Seq<char>, (Seq<char>, int, int)>(s.skip(i)),
    decreases s.len() - i,
{
    if i < s.len() {
        assert(s[i] != prefix) by {
            if s[i] == prefix {
                assert(s.contains(prefix));
            }
        }
        lemma_expand_plain(s, i + 1, prefix, general, look);
        assert(seq![s[i]] + s.skip(i + 1) =~= s.skip(i));
    } else {
        assert(s.skip(i) =~= Seq::<char>::empty());
    }
}

proof fn lemma_prepend_assoc(a: Seq<char>, b: Seq<char>, r: Result<Seq<char>, (Seq<char>, int, int)>)
    ensures
        prepend(a, prepend(b, r)) == prepend(a + b, r),
{
    if let Ok(o) = r {
        assert(a + (b + o) =~= (a + b) + o);
    }
}

pub(crate) proof fn lemma_byte_len_prefix(s: Seq<char>, i: int)
    requires
        0 <= i <= s.len(),
    ensures
        byte_len(s.take(i)) <= byte_len(s),
{
    lemma_encode_append(s.take(i), s.skip(i));
    assert(s.take(i) + s.skip(i) =~= s);
}

/// Byte offset of index `e` of `s`, from the byte offset `b` of index `i`.
pub(crate) fn advance_bytes(s: &Vec<char>, i: usize, e: usize, b: usize) -> (r: usize)
    requires
        i <= e <= s.len(),
        b == byte_len(s@.take(i as int)),
        byte_len(s@) <= usize::MAX,
    ensures
        r == byte_len(s@.take(e as int)),
{
    let mut k: usize = i;
    let mut r: usize = b;
    while k < e
        invariant
            i <= k <= e <= s.len(),
            r == byte_len(s@.take(k as int)),
            byte_len(s@) <= usize::MAX,
        decreases e - k,
    {
        proof {
            lemma_byte_len_push(s@.take(k as int), s@[k as int]);
            assert(s@.take(k as int).push(s@[k as int]) =~= s@.take(k + 1));
            lemma_byte_len_prefix(s@, k + 1);
        }
        r = r + utf8_width(s[k]);
        k = k + 1;
    }
    r
}

/// Expands the references that `prefix` starts in `text`, with the grammar of general
/// references when `general` holds, else with that of parameter references.
#[verifier::rlimit(40)]
pub(crate) fn expand_with<'a, L: EntityLookup>(text: &'a str, prefix: char, general: bool, lookup: &L) -> (r:
    Result<Text<'a>, EntityError>)
    requires
        lookup.ready(),
        prefix == '&' || prefix == '%',
    ensures
        expansion_is(text, prefix, r, expand_spec(text@, prefix, general, |n| lookup.resolves(n))),
        r matches Err(e) ==> reference_in(text@, e),
        prefix == '&' || prefix == '%',
{
    let ghost look = |n| lookup.resolves(n);
    let s = chars_of(text);
    if !contains_char(&s, prefix) {
        proof {
            lemma_expand_plain(s@, 0, prefix, general, look);
            assert(s@.skip(0) =~= s@);
        }
        return Ok(Text::Borrowed(text));
    }
    let total = text.as_bytes().len();
    let n = s.len();
    let mut out: Vec<char> = Vec::new();
    let mut i: usize = 0;
    let mut b: usize = 0;
    proof {
        assert(out@ + Seq::<char>::empty() =~= out@);
        assert(s@.take(0) =~= Seq::<char>::empty());
        assert(expand_spec(s@, prefix, general, look) == prepend(out@, expand_from(s@, 0, prefix, general, look))) by {
            if let Ok(o) = expand_from(s@, 0, prefix, general, look) {
                assert(Seq::<char>::empty() + o =~= o);
            }
        }
    }
    while i < n
        invariant
            i <= n == s.len(),
            s@ == text@,
            s@.contains(prefix),
            prefix == '&' || prefix == '%',
            total == byte_len(s@),
            b == byte_len(s@.take(i as int)),
            lookup.ready(),
            look == (|n| lookup.resolves(n)),
            expand_spec(s@, prefix, general, look) == prepend(out@, expand_from(s@, i as int, prefix, general, look)),
        decreases n - i,
    {
        let c = s[i];
        let ghost out0 = out@;
        if c != prefix {
            proof {
                lemma_prepend_assoc(out@, seq![c], expand_from(s@, i + 1, prefix, general, look));
            }
            out.push(c);
            assert(out@ =~= out0 + seq![c]);
            b = advance_bytes(&s, i, i + 1, b);
            i = i + 1;
        } else {
            match match_reference(&s, i + 1, general) {
                None => {
                    proof {
                        lemma_prepend_assoc(out@, seq![prefix], expand_from(s@, i + 1, prefix, general, look));
                    }
                    out.push(prefix);
                    assert(out@ =~= out0 + seq![prefix]);
                    b = advance_bytes(&s, i, i + 1, b);
                    i = i + 1;
                },
                Some((Reference::Character(ch), e)) => {
                    proof {
                        lemma_prepend_assoc(out@, seq![ch], expand_from(s@, e as int, prefix, general, look));
                    }
                    out.push(ch);
                    assert(out@ =~= out0 + seq![ch]);
                    b = advance_bytes(&s, i, e, b);
                    i = e;
                },
                Some((Reference::Named(x, y), e)) => {
                    let name = text_of(&s, x, y);
                    let found = lookup.lookup(name.as_str());
                    assert(look(s@.subrange(x as int, y as int)) == opt_chars(found));
                    match found {
                        Some(v) => {
                            let vc = chars_of(v.as_str());
                            proof {
                                lemma_prepend_assoc(out@, vc@, expand_from(s@, e as int, prefix, general, look));
                            }
                            push_all(&mut out, vc.as_slice());
                            assert(expand_from(s@, i as int, prefix, general, look) == prepend(vc@, expand_from(s@, e as int, prefix, general, look)));
                            b = advance_bytes(&s, i, e, b);
                            i = e;
                        },
                        None => {
                            let end = advance_bytes(&s, i, e, b);
                            let err = EntityError { entity: name, position: b..end };
                            proof {
                                lemma_match_ref_bounds(s@, i + 1, general);
                                assert(x == i + 1 && y <= e);
                                assert(err.entity@ == s@.subrange(i + 1, y as int));
                                assert(0 <= i < e <= text@.len());
                                assert(text@[i as int] == '&' || text@[i as int] == '%');
                                assert(i + 1 + err.entity@.len() <= e);
                                assert(err.entity@ == text@.subrange(i + 1, i + 1 + err.entity@.len()));
                                assert(err.position.start == byte_len(text@.take(i as int)));
                                assert(err.position.end == byte_len(text@.take(e as int)));
                                assert(reference_at(text@, err, i as int, e as int));
                            }
                            return Err(err);
                        },
                    }
                },
            }
        }
    }
    proof {
        assert(out@ + Seq::<char>::empty() =~= out@);
    }
    Ok(Text::Owned(string_of(out.as_slice())))
}

/// Expands character references (`&#123;`) in `text`; every entity reference is unresolved.
pub fn expand_characters<'a>(text: &'a str) -> (r: Result<Text<'a>, EntityError>)
    ensures
        expansion_is(text, '&', r, expand_spec(text@, '&', true, |n: Seq<char>| None)),
        r matches Err(e) ==> reference_in(text@, e),
{
    let r = expand_with(text, '&', true, &NoEntities);
    proof {
        let l = NoEntities;
        assert((|n: Seq<char>| l.resolves(n)) =~= (|n: Seq<char>| None::<Seq<char>>));
    }
    r
}

/// Expands entity references (`&foo;`) in `text`, resolving names through `f`. Character
/// references are expanded without `f`; a malformed or out-of-range one is passed to `f`
/// as a name with its leading `#`.
pub fn expand_entities<'a, F: Fn(&str) -> Option<String>>(text: &'a str, f: F) -> (r: Result<
    Text<'a>,
    EntityError,
>)
    requires
        callable(f),
        answers_by_name(f),
    ensures
        expansion_is(text, '&', r, expand_spec(text@, '&', true, |n: Seq<char>| lookup_of(f, n))),
        r matches Err(e) ==> reference_in(text@, e),
{
    let l = LookupFn(f);
    let r = expand_with(text, '&', true, &l);
    proof {
        assert((|n: Seq<char>| l.resolves(n)) =~= (|n: Seq<char>| lookup_of(f, n)));
    }
    r
}

/// Expands parameter-entity references (`%foo;`) in `text`, resolving names through `f`.
/// Character-reference syntax is not recognised after `%`.
pub fn expand_parameter_entities<'a, F: Fn(&str) -> Option<String>>(text: &'a str, f: F) -> (r:
    Result<Text<'a>, EntityError>)
    requires
        callable(f),
        answers_by_name(f),
    ensures
        expansion_is(text, '%', r, expand_spec(text@, '%', false, |n: Seq<char>| lookup_of(f, n))),
        r matches Err(e) ==> reference_in(text@, e),
{
    let l = LookupFn(f);
    let r = expand_with(text, '%', false, &l);
    proof {
        assert((|n: Seq<char>| l.resolves(n)) =~= (|n: Seq<char>| lookup_of(f, n)));
    }
    r
}

/// Whether no trigger in `s` starts a reference of the grammar.
pub open spec fn no_reference(s: Seq<char>, prefix: char, general: bool) -> bool {
    forall|i: int| 0 <= i < s.len() && s[i] == prefix ==> match_ref(s, i + 1, general) is None
}

/// Text whose triggers start no reference expands to itself, with whatever lookup.
pub proof fn lemma_expand_unmatched(
    s: Seq<char>,
    i: int,
    prefix: char,
    general: bool,
    look: spec_fn(Seq<char>) -> Option<Seq<char>>,
)
    requires
        0 <= i <= s.len(),
        no_reference(s, prefix, general),
    ensures
        expand_from(s, i, prefix, general, look) == Ok::<Seq<char>, (Seq<char>, int, int)>(s.skip(i)),
    decreases s.len() - i,
{
    if i < s.len() {
        lemma_expand_unmatched(s, i + 1, prefix, general, look);
        assert(seq![s[i]] + s.skip(i + 1) =~= s.skip(i));
    } else {
        assert(s.skip(i) =~= Seq::<char>::empty());
    }
}

/// After the parameter trigger, only names are references: never a character, and
/// never a `#` followed by a digit.
pub proof fn lemma_parameter_refs_named(s: Seq<char>, p: int)
    ensures
        match_ref(s, p, false) matches Some((r, _)) ==> r is Named,
        0 <= p && p + 1 < s.len() && s[p] == '#' && digit_char(s[p + 1]) ==> match_ref(s, p, false) is None,
{
}

} // verus!
