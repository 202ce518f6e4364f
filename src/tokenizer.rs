//! The event-stream parser: classifies markup text into events, applying the
//! configuration's policies.
use vstd::prelude::*;
use crate::data::{is_sgml_whitespace, sgml_whitespace, Data};
use crate::entities::{
    advance_bytes, expand_spec, is_name_char, is_name_start_char, lemma_byte_len_prefix, name_char, name_start,
    reference_at, reference_in, EntityError, EntityLookup,
};
use crate::text::{byte_len, lemma_encode_append};
use crate::parser::{trim_end, trim_start};
use crate::event::SgmlEvent;
use crate::marked_sections::MarkedSectionStatus;
use crate::parser::{keywords_under, lower, normalized, trimmed, upper, MarkedSectionHandling, NameNormalization, ParserConfig};
use crate::text::{offsets_of, slice_of, Text};

verus! {

/// Why a document could not be parsed.
#[derive(Debug, PartialEq)]
pub enum ParseError {
    /// Malformed markup, found at this character index of the input.
    Syntax(usize),
    /// A reference whose lookup gave no replacement.
    Entity(EntityError),
}

/// Whether the events so far leave a start tag open.
pub open spec fn open_after(evs: Seq<SgmlEvent>) -> bool
    decreases evs.len(),
{
    if evs.len() == 0 {
        false
    } else {
        match evs.last() {
            SgmlEvent::OpenStartTag(_) => true,
            SgmlEvent::CloseStartTag => false,
            SgmlEvent::XmlCloseEmptyElement => false,
            _ => open_after(evs.drop_last()),
        }
    }
}

/// Whether `n` is already in the form that `mode` gives to names.
pub open spec fn name_fits(mode: NameNormalization, n: Seq<char>) -> bool {
    normalized(mode, n) == n
}

/// Whether event `e` may come next, `inside` a start tag or not, under `cfg`: attributes
/// and tag closes only inside a start tag, everything else only outside; names
/// normalized; attribute values and character data final; suppressed kinds absent; marked sections only
/// when they are kept.
pub open spec fn event_fits<E: EntityLookup, P: EntityLookup>(
    cfg: &ParserConfig<E, P>,
    inside: bool,
    e: SgmlEvent,
) -> bool {
    match e {
        SgmlEvent::OpenStartTag(n) => !inside && name_fits(cfg.name_normalization, n@),
        SgmlEvent::Attribute(n, v) => inside && name_fits(cfg.name_normalization, n@) && (v matches Some(d) ==> d is CData),
        SgmlEvent::CloseStartTag => inside,
        SgmlEvent::XmlCloseEmptyElement => inside,
        SgmlEvent::EndTag(n) => !inside && name_fits(cfg.name_normalization, n@),
        SgmlEvent::Character(d) => !inside && d is CData,
        SgmlEvent::MarkupDeclaration(_) => !inside && !cfg.ignore_markup_declarations,
        SgmlEvent::ProcessingInstruction(_) => !inside && !cfg.ignore_processing_instructions,
        SgmlEvent::MarkedSection { .. } => !inside && cfg.marked_section_handling
            == MarkedSectionHandling::KeepUnmodified,
    }
}

/// Whether every event of `evs` fits where it stands.
pub open spec fn stream_fits<E: EntityLookup, P: EntityLookup>(cfg: &ParserConfig<E, P>, evs: Seq<SgmlEvent>) -> bool {
    forall|k: int| 0 <= k < evs.len() ==> event_fits(cfg, open_after(#[trigger] evs.take(k)), evs[k])
}

/// Whether `evs` is a complete stream: every event fits and no start tag is left open.
pub open spec fn complete<E: EntityLookup, P: EntityLookup>(cfg: &ParserConfig<E, P>, evs: Seq<SgmlEvent>) -> bool {
    stream_fits(cfg, evs) && !open_after(evs)
}

proof fn lemma_push_fits<E: EntityLookup, P: EntityLookup>(cfg: &ParserConfig<E, P>, evs: Seq<SgmlEvent>, e: SgmlEvent)
    requires
        stream_fits(cfg, evs),
        event_fits(cfg, open_after(evs), e),
    ensures
        stream_fits(cfg, evs.push(e)),
        open_after(evs.push(e)) == match e {
            SgmlEvent::OpenStartTag(_) => true,
            SgmlEvent::CloseStartTag => false,
            SgmlEvent::XmlCloseEmptyElement => false,
            _ => open_after(evs),
        },
{
    let t = evs.push(e);
    assert(t.drop_last() =~= evs);
    assert forall|k: int| 0 <= k < t.len() implies event_fits(cfg, open_after(#[trigger] t.take(k)), t[k]) by {
        if k < evs.len() {
            assert(t.take(k) =~= evs.take(k));
        } else {
            assert(t.take(k) =~= evs);
        }
    }
}

proof fn lemma_lower_idem(n: Seq<char>)
    ensures
        n.map_values(|c: char| lower(c)).map_values(|c: char| lower(c)) =~= n.map_values(|c: char| lower(c)),
        n.map_values(|c: char| upper(c)).map_values(|c: char| upper(c)) =~= n.map_values(|c: char| upper(c)),
{
}

proof fn lemma_normalized_fits(mode: NameNormalization, n: Seq<char>)
    ensures
        name_fits(mode, normalized(mode, n)),
{
    lemma_lower_idem(n);
}

/// Whether a `<` at `k` opens markup: it is followed, before `b`, by a name-start
/// character, `/`, `!`, `?` or `>`.
pub open spec fn markup_at(s: Seq<char>, k: int, b: int) -> bool {
    &&& 0 <= k
    &&& k + 1 < b
    &&& b <= s.len()
    &&& s[k] == '<'
    &&& (name_start(s[k + 1]) || s[k + 1] == '/' || s[k + 1] == '!' || s[k + 1] == '?' || s[k + 1] == '>')
}

/// Index where the run of name characters from `k` stops, at `b` at the latest.
pub open spec fn name_stop(s: Seq<char>, k: int, b: int) -> int
    decreases b - k,
{
    if 0 <= k < b && k < s.len() && name_char(s[k]) {
        name_stop(s, k + 1, b)
    } else {
        k
    }
}

/// Index where the run of SGML whitespace from `k` stops, at `b` at the latest.
pub open spec fn ws_stop(s: Seq<char>, k: int, b: int) -> int
    decreases b - k,
{
    if 0 <= k < b && k < s.len() && sgml_whitespace(s[k]) {
        ws_stop(s, k + 1, b)
    } else {
        k
    }
}

/// Index where an unquoted attribute value from `k` stops: at whitespace, `>` or `b`.
pub open spec fn value_stop(s: Seq<char>, k: int, b: int) -> int
    decreases b - k,
{
    if 0 <= k < b && k < s.len() && !sgml_whitespace(s[k]) && s[k] != '>' {
        value_stop(s, k + 1, b)
    } else {
        k
    }
}

/// First index from `k` on where `pat` occurs whole before `b`.
pub open spec fn find_spec(s: Seq<char>, k: int, b: int, pat: Seq<char>) -> Option<int>
    decreases b - k,
{
    if k < 0 || k >= b || b > s.len() || k + pat.len() > b {
        None
    } else if s.subrange(k, k + pat.len()) == pat {
        Some(k)
    } else {
        find_spec(s, k + 1, b, pat)
    }
}

/// Index of the first `>` from `k` on that no quoted literal hides, `quote` being the
/// quote of a literal open at `k`.
pub open spec fn decl_end_spec(s: Seq<char>, k: int, b: int, quote: Option<char>) -> Option<int>
    decreases b - k,
{
    if k < 0 || k >= b || b > s.len() {
        None
    } else {
        match quote {
            Some(q) => decl_end_spec(s, k + 1, b, if s[k] == q { None } else { Some(q) }),
            None => if s[k] == '>' {
                Some(k)
            } else if s[k] == '"' || s[k] == '\'' {
                decl_end_spec(s, k + 1, b, Some(s[k]))
            } else {
                decl_end_spec(s, k + 1, b, None)
            },
        }
    }
}

/// Index where character data stops, looking from `j` on: at the next `<` that opens
/// markup, or `b`.
pub open spec fn data_stop(s: Seq<char>, j: int, b: int) -> int
    decreases b - j,
{
    if 0 <= j < b && !markup_at(s, j, b) {
        data_stop(s, j + 1, b)
    } else {
        j
    }
}

fn is_markup_at(s: &Vec<char>, k: usize, b: usize) -> (r: bool)
    requires
        b <= s.len(),
    ensures
        r == markup_at(s@, k as int, b as int),
{
    if k < b && k + 1 < b && s[k] == '<' {
        let c = s[k + 1];
        is_name_start_char(c) || c == '/' || c == '!' || c == '?' || c == '>'
    } else {
        false
    }
}

/// Index after the run of name characters from `k`, stopping at `b`.
fn name_end(s: &Vec<char>, k: usize, b: usize) -> (r: usize)
    requires
        k <= b <= s.len(),
    ensures
        k <= r <= b,
        r == name_stop(s@, k as int, b as int),
        forall|j: int| k <= j < r ==> name_char(#[trigger] s@[j]),
        r < b ==> !name_char(s@[r as int]),
{
    let mut i: usize = k;
    while i < b && is_name_char(s[i])
        invariant
            k <= i <= b <= s.len(),
            name_stop(s@, k as int, b as int) == name_stop(s@, i as int, b as int),
            forall|j: int| k <= j < i ==> name_char(#[trigger] s@[j]),
        decreases b - i,
    {
        i = i + 1;
    }
    i
}

/// Index after the run of SGML whitespace from `k`, stopping at `b`.
fn skip_ws(s: &Vec<char>, k: usize, b: usize) -> (r: usize)
    requires
        k <= b <= s.len(),
    ensures
        k <= r <= b,
        r == ws_stop(s@, k as int, b as int),
        forall|j: int| k <= j < r ==> sgml_whitespace(#[trigger] s@[j]),
        r < b ==> !sgml_whitespace(s@[r as int]),
{
    let mut i: usize = k;
    while i < b && is_sgml_whitespace(s[i])
        invariant
            k <= i <= b <= s.len(),
            ws_stop(s@, k as int, b as int) == ws_stop(s@, i as int, b as int),
            forall|j: int| k <= j < i ==> sgml_whitespace(#[trigger] s@[j]),
        decreases b - i,
    {
        i = i + 1;
    }
    i
}

/// First index `j` in `k..b` where `pat` starts and ends before `b`.
fn find_from(s: &Vec<char>, k: usize, b: usize, pat: &[char]) -> (r: Option<usize>)
    requires
        k <= b <= s.len(),
        pat@.len() > 0,
    ensures
        r matches Some(j) ==> k <= j && j + pat@.len() <= b && s@.subrange(j as int, j + pat@.len()) == pat@,
        r matches Some(j) ==> find_spec(s@, k as int, b as int, pat@) == Some(j as int),
        r is None ==> find_spec(s@, k as int, b as int, pat@) is None,
{
    let mut i: usize = k;
    while i < b && pat.len() <= b - i
        invariant
            k <= i <= b <= s.len(),
            pat@.len() > 0,
            find_spec(s@, k as int, b as int, pat@) == find_spec(s@, i as int, b as int, pat@),
        decreases b - i,
    {
        let mut m: usize = 0;
        while m < pat.len() && s[i + m] == pat[m]
            invariant
                i + pat@.len() <= b <= s.len(),
                m <= pat@.len(),
                forall|t: int| 0 <= t < m ==> s@[i + t] == pat@[t],
            decreases pat@.len() - m,
        {
            m = m + 1;
        }
        if m == pat.len() {
            assert(s@.subrange(i as int, i + pat@.len()) =~= pat@);
            return Some(i);
        }
        assert(s@.subrange(i as int, i + pat@.len())[m as int] != pat@[m as int]);
        i = i + 1;
    }
    None
}

/// Index of the `>` that ends a declaration begun before `k`, skipping quoted literals.
fn declaration_end(s: &Vec<char>, k: usize, b: usize) -> (r: Option<usize>)
    requires
        k <= b <= s.len(),
    ensures
        r matches Some(j) ==> k <= j < b && s@[j as int] == '>',
        r matches Some(j) ==> decl_end_spec(s@, k as int, b as int, None) == Some(j as int),
        r is None ==> decl_end_spec(s@, k as int, b as int, None) is None,
{
    let mut i: usize = k;
    let mut quote: Option<char> = None;
    while i < b
        invariant
            k <= i <= b <= s.len(),
            decl_end_spec(s@, k as int, b as int, None) == decl_end_spec(s@, i as int, b as int, quote),
        decreases b - i,
    {
        let c = s[i];
        match quote {
            Some(q) => {
                if c == q {
                    quote = None;
                }
            },
            None => {
                if c == '>' {
                    return Some(i);
                } else if c == '"' || c == '\'' {
                    quote = Some(c);
                }
            },
        }
        i = i + 1;
    }
    None
}

/// An event as values: its kind and the characters it holds.
pub enum EventView {
    Declaration(Seq<char>),
    Instruction(Seq<char>),
    Section(Seq<char>, Seq<char>),
    Open(Seq<char>),
    Attribute(Seq<char>, Option<Seq<char>>),
    Close,
    XmlClose,
    End(Seq<char>),
    Chars(Seq<char>),
}

/// The view of an event.
pub open spec fn view_of(e: SgmlEvent) -> EventView {
    match e {
        SgmlEvent::MarkupDeclaration(t) => EventView::Declaration(t@),
        SgmlEvent::ProcessingInstruction(t) => EventView::Instruction(t@),
        SgmlEvent::MarkedSection { status_keywords, section } => EventView::Section(status_keywords@, section@),
        SgmlEvent::OpenStartTag(n) => EventView::Open(n@),
        SgmlEvent::Attribute(n, v) => EventView::Attribute(
            n@,
            match v {
                Some(d) => Some(d.spec_text()),
                None => None,
            },
        ),
        SgmlEvent::CloseStartTag => EventView::Close,
        SgmlEvent::XmlCloseEmptyElement => EventView::XmlClose,
        SgmlEvent::EndTag(n) => EventView::End(n@),
        SgmlEvent::Character(d) => EventView::Chars(d.spec_text()),
    }
}

/// The views of a sequence of events.
pub open spec fn views(evs: Seq<SgmlEvent>) -> Seq<EventView> {
    evs.map_values(|e: SgmlEvent| view_of(e))
}

proof fn lemma_views_push(evs: Seq<SgmlEvent>, e: SgmlEvent)
    ensures
        views(evs.push(e)) == views(evs).push(view_of(e)),
{
    assert(views(evs.push(e)) =~= views(evs).push(view_of(e)));
}

/// Whether an exec outcome `r` that turned `before` into `after` is the specified
/// outcome `x`: the same events and end index, or a failure where `x` fails.
pub open spec fn outcome_is(
    x: Option<(Seq<EventView>, int)>,
    r: Result<usize, ParseError>,
    before: Seq<SgmlEvent>,
    after: Seq<SgmlEvent>,
) -> bool {
    match (r, x) {
        (Ok(j), Some((evs, k))) => j == k && views(after) == views(before) + evs,
        (Err(_), None) => true,
        _ => false,
    }
}

/// Whether the outcome `r` of parsing a range that turned `before` into `after` is the
/// specified outcome `x`.
pub open spec fn range_outcome_is(
    x: Option<Seq<EventView>>,
    r: Result<(), ParseError>,
    before: Seq<SgmlEvent>,
    after: Seq<SgmlEvent>,
) -> bool {
    match (r, x) {
        (Ok(()), Some(evs)) => views(after) == views(before) + evs,
        (Err(_), None) => true,
        _ => false,
    }
}

/// The events of character data `t`: none if its kept text is empty, else one holding
/// the kept text, expanded when `replaceable`; `None` where expansion fails.
pub open spec fn data_events<E: EntityLookup, P: EntityLookup>(
    cfg: &ParserConfig<E, P>,
    t: Seq<char>,
    replaceable: bool,
) -> Option<Seq<EventView>> {
    let k = kept_text(cfg, t);
    if k.len() == 0 {
        Some(Seq::empty())
    } else if !replaceable {
        Some(seq![EventView::Chars(k)])
    } else {
        match expand_spec(k, '&', true, |n| cfg.entity_lookup.resolves(n)) {
            Ok(o) => Some(seq![EventView::Chars(o)]),
            Err(_) => None,
        }
    }
}

/// `x` with `p` put before its events.
pub open spec fn join(p: Seq<EventView>, x: Option<(Seq<EventView>, int)>) -> Option<(Seq<EventView>, int)> {
    match x {
        Some((rest, z)) => Some((p + rest, z)),
        None => None,
    }
}

/// `x` with `p` put before its events.
pub open spec fn range_join(p: Seq<EventView>, x: Option<Seq<EventView>>) -> Option<Seq<EventView>> {
    match x {
        Some(rest) => Some(p + rest),
        None => None,
    }
}

/// The end tag at `i`: `</`, a name, whitespace, `>`.
pub open spec fn end_tag_spec<E: EntityLookup, P: EntityLookup>(
    s: Seq<char>,
    i: int,
    b: int,
    cfg: &ParserConfig<E, P>,
) -> Option<(Seq<EventView>, int)> {
    let e = name_stop(s, i + 2, b);
    let k = ws_stop(s, e, b);
    if k < b && s[k] == '>' {
        Some((seq![EventView::End(normalized(cfg.name_normalization, s.subrange(i + 2, e)))], k + 1))
    } else {
        None
    }
}

/// The raw value of an attribute at `v` (after `=`): the characters between matching
/// quotes, or an unquoted run; as its range and the index after it.
pub open spec fn value_spec(s: Seq<char>, v: int, b: int) -> Option<(int, int, int)> {
    if 0 <= v < b && (s[v] == '"' || s[v] == '\'') {
        match find_spec(s, v + 1, b, seq![s[v]]) {
            Some(c) => Some((v + 1, c, c + 1)),
            None => None,
        }
    } else {
        let w = value_stop(s, v, b);
        if w == v { None } else { Some((v, w, w)) }
    }
}

/// The attribute at `k`: a name, then optionally `=` and a value, which is expanded.
pub open spec fn attribute_spec<E: EntityLookup, P: EntityLookup>(
    s: Seq<char>,
    k: int,
    b: int,
    cfg: &ParserConfig<E, P>,
) -> Option<(EventView, int)> {
    let e = name_stop(s, k, b);
    let n = normalized(cfg.name_normalization, s.subrange(k, e));
    let m = ws_stop(s, e, b);
    if e == k {
        None
    } else if m < b && s[m] == '=' {
        match value_spec(s, ws_stop(s, m + 1, b), b) {
            Some((va, vb, next)) => match expand_spec(
                s.subrange(va, vb),
                '&',
                true,
                |x| cfg.entity_lookup.resolves(x),
            ) {
                Ok(o) => Some((EventView::Attribute(n, Some(o)), next)),
                Err(_) => None,
            },
            None => None,
        }
    } else {
        Some((EventView::Attribute(n, None), e))
    }
}

/// The rest of a start tag from `k`: attributes, then `>` or `/>`.
pub open spec fn tag_rest_spec<E: EntityLookup, P: EntityLookup>(
    s: Seq<char>,
    k: int,
    b: int,
    cfg: &ParserConfig<E, P>,
) -> Option<(Seq<EventView>, int)>
    decreases b - k,
{
    let m = ws_stop(s, k, b);
    if k < 0 || m >= b || b > s.len() {
        None
    } else if s[m] == '>' {
        Some((seq![EventView::Close], m + 1))
    } else if s[m] == '/' && m + 1 < b && s[m + 1] == '>' {
        Some((seq![EventView::XmlClose], m + 2))
    } else if !name_start(s[m]) {
        None
    } else {
        match attribute_spec(s, m, b, cfg) {
            Some((a, j)) => if j <= k || j > b {
                None
            } else {
                match tag_rest_spec(s, j, b, cfg) {
                    Some((rest, z)) => Some((seq![a] + rest, z)),
                    None => None,
                }
            },
            None => None,
        }
    }
}

/// The start tag at `i`: `<`, a name (maybe empty), then the rest of the tag.
pub open spec fn start_tag_spec<E: EntityLookup, P: EntityLookup>(
    s: Seq<char>,
    i: int,
    b: int,
    cfg: &ParserConfig<E, P>,
) -> Option<(Seq<EventView>, int)> {
    let e = name_stop(s, i + 1, b);
    match tag_rest_spec(s, e, b, cfg) {
        Some((rest, z)) => Some((seq![EventView::Open(normalized(cfg.name_normalization, s.subrange(i + 1, e)))] + rest, z)),
        None => None,
    }
}

/// The processing instruction at `i`: `<?` up to the first `>`.
pub open spec fn instruction_spec<E: EntityLookup, P: EntityLookup>(
    s: Seq<char>,
    i: int,
    b: int,
    cfg: &ParserConfig<E, P>,
) -> Option<(Seq<EventView>, int)> {
    match find_spec(s, i + 2, b, seq!['>']) {
        Some(g) => Some((
            if cfg.ignore_processing_instructions {
                Seq::empty()
            } else {
                seq![EventView::Instruction(s.subrange(i, g + 1))]
            },
            g + 1,
        )),
        None => None,
    }
}

/// The construct at `i` that starts with `<!`: a comment declaration `<!--...-->`, the
/// empty declaration `<!>`, a marked section, or a markup declaration, whose parameter
/// entities are expanded.
pub open spec fn declaration_spec<E: EntityLookup, P: EntityLookup>(
    s: Seq<char>,
    i: int,
    b: int,
    cfg: &ParserConfig<E, P>,
) -> Option<(Seq<EventView>, int)>
    decreases b - i, 1nat,
{
    if b - i > 3 && s[i + 2] == '-' && s[i + 3] == '-' {
        match find_spec(s, i + 4, b, seq!['-', '-', '>']) {
            Some(c) => Some((Seq::empty(), c + 3)),
            None => None,
        }
    } else if i + 2 < b && s[i + 2] == '>' {
        Some((Seq::empty(), i + 3))
    } else if i + 2 < b && s[i + 2] == '[' {
        marked_spec(s, i, b, cfg)
    } else {
        match decl_end_spec(s, i + 2, b, None) {
            Some(g) => match expand_spec(
                s.subrange(i, g + 1),
                '%',
                false,
                |x| cfg.parameter_entity_lookup.resolves(x),
            ) {
                Ok(o) => Some((
                    if cfg.ignore_markup_declarations {
                        Seq::empty()
                    } else {
                        seq![EventView::Declaration(o)]
                    },
                    g + 1,
                )),
                Err(_) => None,
            },
            None => None,
        }
    }
}

/// The marked section `<![keywords[section]]>` at `i`, ending at the first `]]>`. Its
/// keywords, with parameter entities expanded and whitespace trimmed, must be accepted by
/// the handling mode. Kept sections give one event with the raw keywords and text; else
/// `CDATA` gives the text as it stands, `RCDATA` expanded, `IGNORE` nothing, and
/// `INCLUDE` the events of the text.
pub open spec fn marked_spec<E: EntityLookup, P: EntityLookup>(
    s: Seq<char>,
    i: int,
    b: int,
    cfg: &ParserConfig<E, P>,
) -> Option<(Seq<EventView>, int)>
    decreases b - i, 0nat,
{
    match find_spec(s, i + 3, b, seq!['[']) {
        None => None,
        Some(kw) => match find_spec(s, kw + 1, b, seq![']', ']', '>']) {
            None => None,
            Some(se) => {
                let raw = s.subrange(i + 3, kw);
                let section = s.subrange(kw + 1, se);
                match expand_spec(raw, '%', false, |x| cfg.parameter_entity_lookup.resolves(x)) {
                    Err(_) => None,
                    Ok(kws) => match keywords_under(cfg.marked_section_handling, trimmed(kws)) {
                        None => None,
                        Some(st) => if cfg.marked_section_handling == MarkedSectionHandling::KeepUnmodified {
                            Some((seq![EventView::Section(raw, section)], se + 3))
                        } else {
                            let inner = match st {
                                MarkedSectionStatus::CData => data_events(cfg, section, false),
                                MarkedSectionStatus::RcData => data_events(cfg, section, true),
                                MarkedSectionStatus::Ignore => Some(Seq::empty()),
                                MarkedSectionStatus::Include => if i < kw + 1 && kw + 1 <= se && se <= b {
                                    events_spec(s, kw + 1, se, cfg)
                                } else {
                                    None
                                },
                            };
                            match inner {
                                Some(evs) => Some((evs, se + 3)),
                                None => None,
                            }
                        },
                    },
                }
            },
        },
    }
}

/// The construct at `i`: markup where a `<` opens it, else a run of character data.
pub open spec fn construct_spec<E: EntityLookup, P: EntityLookup>(
    s: Seq<char>,
    i: int,
    b: int,
    cfg: &ParserConfig<E, P>,
) -> Option<(Seq<EventView>, int)>
    decreases b - i, 2nat,
{
    if markup_at(s, i, b) {
        let c = s[i + 1];
        if c == '!' {
            declaration_spec(s, i, b, cfg)
        } else if c == '?' {
            instruction_spec(s, i, b, cfg)
        } else if c == '/' {
            end_tag_spec(s, i, b, cfg)
        } else {
            start_tag_spec(s, i, b, cfg)
        }
    } else {
        let e = data_stop(s, i + 1, b);
        match data_events(cfg, s.subrange(i, e), true) {
            Some(evs) => Some((evs, e)),
            None => None,
        }
    }
}

/// The events of `s[i..b]`, construct after construct; `None` where one fails.
pub open spec fn events_spec<E: EntityLookup, P: EntityLookup>(
    s: Seq<char>,
    i: int,
    b: int,
    cfg: &ParserConfig<E, P>,
) -> Option<Seq<EventView>>
    decreases b - i, 3nat,
{
    if i < 0 || i >= b || b > s.len() {
        Some(Seq::empty())
    } else {
        match construct_spec(s, i, b, cfg) {
            None => None,
            Some((evs, j)) => if j <= i || j > b {
                None
            } else {
                match events_spec(s, j, b, cfg) {
                    Some(rest) => Some(evs + rest),
                    None => None,
                }
            },
        }
    }
}

/// Whether a failure `r` of parsing `s` up to `b` points into it: malformed markup at an
/// index no further than `b`, or an unresolved reference of `s` with its byte range.
pub open spec fn fails_within<T>(s: Seq<char>, b: int, r: Result<T, ParseError>) -> bool {
    match r {
        Ok(_) => true,
        Err(ParseError::Syntax(k)) => k <= b,
        Err(ParseError::Entity(e)) => reference_in(s, e),
    }
}

/// Moves an unresolved reference of `k`, which stands at `off` in `s`, to its place in `s`.
fn shift_error(s: &Vec<char>, off: usize, Ghost(k): Ghost<Seq<char>>, e: EntityError) -> (r: EntityError)
    requires
        off + k.len() <= s.len(),
        k == s@.subrange(off as int, off + k.len()),
        reference_in(k, e),
        byte_len(s@) <= usize::MAX,
    ensures
        reference_in(s@, r),
{
    let ghost (a, b) = choose|a: int, b: int| reference_at(k, e, a, b);
    proof {
        assert(s@.take(off + a) =~= s@.take(off as int) + k.take(a));
        assert(s@.take(off + b) =~= s@.take(off as int) + k.take(b));
        lemma_encode_append(s@.take(off as int), k.take(a));
        lemma_encode_append(s@.take(off as int), k.take(b));
        lemma_byte_len_prefix(s@, off + a);
        lemma_byte_len_prefix(s@, off + b);
        assert(e.entity@ == s@.subrange(off + a + 1, off + a + 1 + e.entity@.len()));
    }
    let base = advance_bytes(s, 0, off, 0);
    proof {
        assert(s@.take(0) =~= Seq::<char>::empty());
    }
    let r = EntityError { entity: e.entity, position: base + e.position.start..base + e.position.end };
    assert(reference_at(s@, r, off + a, off + b));
    r
}

proof fn lemma_trim_start_stop(s: Seq<char>, a: int, b: int)
    requires
        0 <= a <= b <= s.len(),
    ensures
        a <= ws_stop(s, a, b) <= b,
        trim_start(s.subrange(a, b)) == s.subrange(ws_stop(s, a, b), b),
    decreases b - a,
{
    if a < b && sgml_whitespace(s[a]) {
        assert(s.subrange(a, b).drop_first() =~= s.subrange(a + 1, b));
        lemma_trim_start_stop(s, a + 1, b);
    }
}

proof fn lemma_trim_end_prefix(x: Seq<char>)
    ensures
        trim_end(x).len() <= x.len(),
        trim_end(x) == x.subrange(0, trim_end(x).len() as int),
    decreases x.len(),
{
    if x.len() > 0 && sgml_whitespace(x.last()) {
        lemma_trim_end_prefix(x.drop_last());
        assert(x.drop_last().subrange(0, trim_end(x).len() as int) =~= x.subrange(0, trim_end(x).len() as int));
    } else {
        assert(x.subrange(0, x.len() as int) =~= x);
    }
}

/// The text that becomes character data after trimming, if the configuration trims.
pub open spec fn kept_text<E: EntityLookup, P: EntityLookup>(cfg: &ParserConfig<E, P>, t: Seq<char>) -> Seq<char> {
    if cfg.trim_whitespace { trimmed(t) } else { t }
}

/// Whether pushing the character data `t`, replaceable when `replaceable`, turned `before`
/// into `after` with result `r`: nothing if the kept text is empty; else one final
/// `Character` event holding its expansion, or the expansion's error.
pub open spec fn data_pushed<E: EntityLookup, P: EntityLookup>(
    cfg: &ParserConfig<E, P>,
    t: Seq<char>,
    replaceable: bool,
    before: Seq<SgmlEvent>,
    after: Seq<SgmlEvent>,
    r: Result<(), ParseError>,
) -> bool {
    let k = kept_text(cfg, t);
    if k.len() == 0 {
        r is Ok && after == before
    } else if !replaceable {
        &&& r is Ok
        &&& after.len() == before.len() + 1
        &&& after.drop_last() == before
        &&& after.last() matches SgmlEvent::Character(d) && d is CData && d.spec_text() == k
    } else {
        match expand_spec(k, '&', true, |n| cfg.entity_lookup.resolves(n)) {
            Ok(o) => {
                &&& r is Ok
                &&& after.len() == before.len() + 1
                &&& after.drop_last() == before
                &&& after.last() matches SgmlEvent::Character(d) && d is CData && d.spec_text() == o
            },
            Err(_) => r matches Err(ParseError::Entity(_)),
        }
    }
}

/// Pushes the character data `s[a..b]` as `data_pushed` says.
fn push_data<'a, E: EntityLookup, P: EntityLookup>(
    input: &'a str,
    offs: &Vec<usize>,
    s: &Vec<char>,
    a: usize,
    b: usize,
    replaceable: bool,
    cfg: &ParserConfig<E, P>,
    out: &mut Vec<SgmlEvent<'a>>,
) -> (r: Result<(), ParseError>)
    requires
        a <= b <= s.len(),
        cfg.wf(),
        complete(cfg, old(out)@),
        byte_len(s@) <= usize::MAX,
        s@ == input@,
        offsets_of(input, offs@),
    ensures
        complete(cfg, final(out)@),
        fails_within(s@, b as int, r),
        data_pushed(cfg, s@.subrange(a as int, b as int), replaceable, old(out)@, final(out)@, r),
        range_outcome_is(data_events(cfg, s@.subrange(a as int, b as int), replaceable), r, old(out)@, final(out)@),
{
    let whole = slice_of(input, offs, a, b);
    let kept = cfg.trim(whole);
    if kept.is_empty() {
        assert(views(out@) + Seq::<EventView>::empty() =~= views(out@));
        return Ok(());
    }
    let data = if replaceable {
        match cfg.parse_rcdata(kept) {
            Ok(d) => d,
            Err(e) => {
                let off = if cfg.trim_whitespace { skip_ws(s, a, b) } else { a };
                proof {
                    if cfg.trim_whitespace {
                        lemma_trim_start_stop(s@, a as int, b as int);
                        lemma_trim_end_prefix(s@.subrange(off as int, b as int));
                    } else {
                        assert(s@.subrange(a as int, b as int) =~= s@.subrange(off as int, off + kept@.len()));
                    }
                    assert(kept@ =~= s@.subrange(off as int, off + kept@.len()));
                }
                return Err(ParseError::Entity(shift_error(s, off, Ghost(kept@), e)));
            },
        }
    } else {
        Data::CData(Text::Borrowed(kept))
    };
    proof {
        lemma_push_fits(cfg, out@, SgmlEvent::Character(data));
    }
    out.push(SgmlEvent::Character(data));
    proof {
        assert(out@.drop_last() =~= old(out)@);
        lemma_views_push(old(out)@, SgmlEvent::Character(data));
        assert(views(old(out)@).push(view_of(SgmlEvent::Character(data))) =~= views(old(out)@) + seq![view_of(SgmlEvent::Character(data))]);
    }
    Ok(())
}

/// Index after the run of character data that starts at `i`: up to the next `<` that
/// opens markup, or `b`.
fn data_end(s: &Vec<char>, i: usize, b: usize) -> (r: usize)
    requires
        i < b <= s.len(),
    ensures
        i < r <= b,
        forall|j: int| i < j < r ==> !markup_at(s@, j, b as int),
        r < b ==> markup_at(s@, r as int, b as int),
        r == data_stop(s@, i + 1, b as int),
{
    let mut j: usize = i + 1;
    while j < b && !is_markup_at(s, j, b)
        invariant
            i < j <= b <= s.len(),
            data_stop(s@, i + 1, b as int) == data_stop(s@, j as int, b as int),
            forall|t: int| i < t < j ==> !markup_at(s@, t, b as int),
        decreases b - j,
    {
        j = j + 1;
    }
    j
}

/// Pushes a normalized name event built from `s[a..b]`.
fn normalized_name<'a, E: EntityLookup, P: EntityLookup>(
    input: &'a str,
    offs: &Vec<usize>,
    s: &Vec<char>,
    a: usize,
    b: usize,
    cfg: &ParserConfig<E, P>,
) -> (r: Text<'a>)
    requires
        a <= b <= s.len(),
        s@ == input@,
        offsets_of(input, offs@),
    ensures
        r@ == normalized(cfg.name_normalization, s@.subrange(a as int, b as int)),
        name_fits(cfg.name_normalization, r@),
{
    let n = cfg.name_normalization.normalize(Text::Borrowed(slice_of(input, offs, a, b)));
    proof {
        lemma_normalized_fits(cfg.name_normalization, s@.subrange(a as int, b as int));
    }
    n
}

/// Parses the end tag `</name>` at `i`.
fn end_tag<'a, E: EntityLookup, P: EntityLookup>(
    input: &'a str,
    offs: &Vec<usize>,
    s: &Vec<char>,
    i: usize,
    b: usize,
    cfg: &ParserConfig<E, P>,
    out: &mut Vec<SgmlEvent<'a>>,
) -> (r: Result<usize, ParseError>)
    requires
        byte_len(s@) <= usize::MAX,
        s@ == input@,
        offsets_of(input, offs@),
        i + 2 <= b <= s.len(),
        complete(cfg, old(out)@),
    ensures
        fails_within(s@, b as int, r),
        complete(cfg, final(out)@),
        r matches Ok(j) ==> i < j <= b,
        outcome_is(end_tag_spec(s@, i as int, b as int, cfg), r, old(out)@, final(out)@),
{
    let e = name_end(s, i + 2, b);
    let k = skip_ws(s, e, b);
    if k < b && s[k] == '>' {
        let n = normalized_name(input, offs, s, i + 2, e, cfg);
        proof {
            lemma_push_fits(cfg, out@, SgmlEvent::EndTag(n));
        }
        out.push(SgmlEvent::EndTag(n));
        proof {
            lemma_views_push(old(out)@, SgmlEvent::EndTag(n));
            assert(views(old(out)@).push(view_of(SgmlEvent::EndTag(n))) =~= views(old(out)@) + seq![view_of(SgmlEvent::EndTag(n))]);
        }
        Ok(k + 1)
    } else {
        Err(ParseError::Syntax(k))
    }
}

/// Parses one attribute at `k`, inside a start tag.
fn attribute<'a, E: EntityLookup, P: EntityLookup>(
    input: &'a str,
    offs: &Vec<usize>,
    s: &Vec<char>,
    k: usize,
    b: usize,
    cfg: &ParserConfig<E, P>,
    out: &mut Vec<SgmlEvent<'a>>,
) -> (r: Result<usize, ParseError>)
    requires
        byte_len(s@) <= usize::MAX,
        s@ == input@,
        offsets_of(input, offs@),
        k < b <= s.len(),
        cfg.wf(),
        stream_fits(cfg, old(out)@),
        open_after(old(out)@),
    ensures
        fails_within(s@, b as int, r),
        stream_fits(cfg, final(out)@),
        open_after(final(out)@),
        r matches Ok(j) ==> k < j <= b,
        match (r, attribute_spec(s@, k as int, b as int, cfg)) {
            (Ok(j), Some((ev, j2))) => j == j2 && views(final(out)@) == views(old(out)@).push(ev),
            (Err(_), None) => true,
            _ => false,
        },
{
    let e = name_end(s, k, b);
    if e == k {
        return Err(ParseError::Syntax(k));
    }
    let n = normalized_name(input, offs, s, k, e, cfg);
    let m = skip_ws(s, e, b);
    if m < b && s[m] == '=' {
        let v = skip_ws(s, m + 1, b);
        let (va, vb, next) = if v < b && (s[v] == '"' || s[v] == '\'') {
            let q = s[v];
            let pat: [char; 1] = [q];
            assert(pat@ =~= seq![q]);
            match find_from(s, v + 1, b, pat.as_slice()) {
                Some(c) => (v + 1, c, c + 1),
                None => {
                    return Err(ParseError::Syntax(v));
                },
            }
        } else {
            let mut w: usize = v;
            while w < b && !is_sgml_whitespace(s[w]) && s[w] != '>'
                invariant
                    v <= w <= b <= s.len(),
                    value_stop(s@, v as int, b as int) == value_stop(s@, w as int, b as int),
                decreases b - w,
            {
                w = w + 1;
            }
            if w == v {
                return Err(ParseError::Syntax(v));
            }
            (v, w, w)
        };
        let raw = slice_of(input, offs, va, vb);
        let data = match cfg.parse_rcdata(raw) {
            Ok(d) => d,
            Err(err) => {
                return Err(ParseError::Entity(shift_error(s, va, Ghost(raw@), err)));
            },
        };
        let ev = SgmlEvent::Attribute(n, Some(data));
        proof {
            lemma_push_fits(cfg, out@, ev);
        }
        out.push(ev);
        proof {
            lemma_views_push(old(out)@, ev);
        }
        Ok(next)
    } else {
        let ev = SgmlEvent::Attribute(n, None);
        proof {
            lemma_push_fits(cfg, out@, ev);
        }
        out.push(ev);
        proof {
            lemma_views_push(old(out)@, ev);
        }
        Ok(e)
    }
}

/// Parses the rest of a start tag from `k`: attributes, then `>` or `/>`.
fn tag_rest<'a, E: EntityLookup, P: EntityLookup>(
    input: &'a str,
    offs: &Vec<usize>,
    s: &Vec<char>,
    k: usize,
    b: usize,
    cfg: &ParserConfig<E, P>,
    out: &mut Vec<SgmlEvent<'a>>,
) -> (r: Result<usize, ParseError>)
    requires
        byte_len(s@) <= usize::MAX,
        s@ == input@,
        offsets_of(input, offs@),
        k <= b <= s.len(),
        cfg.wf(),
        stream_fits(cfg, old(out)@),
        open_after(old(out)@),
    ensures
        fails_within(s@, b as int, r),
        stream_fits(cfg, final(out)@),
        r is Ok ==> !open_after(final(out)@),
        r matches Ok(j) ==> k < j <= b,
        outcome_is(tag_rest_spec(s@, k as int, b as int, cfg), r, old(out)@, final(out)@),
    decreases b - k,
{
    let m = skip_ws(s, k, b);
    if m >= b {
        return Err(ParseError::Syntax(m));
    }
    if s[m] == '>' {
        proof {
            lemma_push_fits(cfg, out@, SgmlEvent::CloseStartTag);
            lemma_views_push(out@, SgmlEvent::CloseStartTag);
        }
        out.push(SgmlEvent::CloseStartTag);
        assert(views(out@) =~= views(old(out)@) + seq![EventView::Close]);
        return Ok(m + 1);
    }
    if s[m] == '/' && m + 1 < b && s[m + 1] == '>' {
        proof {
            lemma_push_fits(cfg, out@, SgmlEvent::XmlCloseEmptyElement);
            lemma_views_push(out@, SgmlEvent::XmlCloseEmptyElement);
        }
        out.push(SgmlEvent::XmlCloseEmptyElement);
        assert(views(out@) =~= views(old(out)@) + seq![EventView::XmlClose]);
        return Ok(m + 2);
    }
    if !is_name_start_char(s[m]) {
        return Err(ParseError::Syntax(m));
    }
    let j = match attribute(input, offs, s, m, b, cfg, out) {
        Ok(j) => j,
        Err(err) => {
            return Err(err);
        },
    };
    let ghost mid = out@;
    let r = tag_rest(input, offs, s, j, b, cfg, out);
    proof {
        let a = match attribute_spec(s@, m as int, b as int, cfg) {
            Some((x, _)) => x,
            None => EventView::Close,
        };
        if let Some((rest, z)) = tag_rest_spec(s@, j as int, b as int, cfg) {
            if r is Ok {
                assert(views(out@) =~= views(old(out)@) + (seq![a] + rest));
            }
        }
    }
    r
}

/// Parses the start tag at `i`: `<name`, its attributes, then `>` or `/>`.
fn start_tag<'a, E: EntityLookup, P: EntityLookup>(
    input: &'a str,
    offs: &Vec<usize>,
    s: &Vec<char>,
    i: usize,
    b: usize,
    cfg: &ParserConfig<E, P>,
    out: &mut Vec<SgmlEvent<'a>>,
) -> (r: Result<usize, ParseError>)
    requires
        byte_len(s@) <= usize::MAX,
        s@ == input@,
        offsets_of(input, offs@),
        i + 1 < b <= s.len(),
        cfg.wf(),
        complete(cfg, old(out)@),
    ensures
        fails_within(s@, b as int, r),
        stream_fits(cfg, final(out)@),
        r is Ok ==> complete(cfg, final(out)@),
        r matches Ok(j) ==> i < j <= b,
        outcome_is(start_tag_spec(s@, i as int, b as int, cfg), r, old(out)@, final(out)@),
{
    let e = name_end(s, i + 1, b);
    let n = normalized_name(input, offs, s, i + 1, e, cfg);
    proof {
        lemma_push_fits(cfg, out@, SgmlEvent::OpenStartTag(n));
        lemma_views_push(out@, SgmlEvent::OpenStartTag(n));
    }
    out.push(SgmlEvent::OpenStartTag(n));
    let ghost mid = out@;
    let r = tag_rest(input, offs, s, e, b, cfg, out);
    proof {
        if let Some((rest, z)) = tag_rest_spec(s@, e as int, b as int, cfg) {
            if r is Ok {
                assert(views(out@) =~= views(old(out)@) + (seq![view_of(SgmlEvent::OpenStartTag(n))] + rest));
            }
        }
    }
    r
}

/// Parses the processing instruction `<?...>` at `i`.
fn instruction<'a, E: EntityLookup, P: EntityLookup>(
    input: &'a str,
    offs: &Vec<usize>,
    s: &Vec<char>,
    i: usize,
    b: usize,
    cfg: &ParserConfig<E, P>,
    out: &mut Vec<SgmlEvent<'a>>,
) -> (r: Result<usize, ParseError>)
    requires
        byte_len(s@) <= usize::MAX,
        s@ == input@,
        offsets_of(input, offs@),
        i + 2 <= b <= s.len(),
        complete(cfg, old(out)@),
    ensures
        fails_within(s@, b as int, r),
        complete(cfg, final(out)@),
        r matches Ok(j) ==> i < j <= b,
        outcome_is(instruction_spec(s@, i as int, b as int, cfg), r, old(out)@, final(out)@),
{
    let pat: [char; 1] = ['>'];
    assert(pat@ =~= seq!['>']);
    let found = find_from(s, i + 2, b, pat.as_slice());
    match found {
        Some(g) => {
            if !cfg.ignore_processing_instructions {
                let ev = SgmlEvent::ProcessingInstruction(Text::Borrowed(slice_of(input, offs, i, g + 1)));
                proof {
                    lemma_push_fits(cfg, out@, ev);
                }
                out.push(ev);
                proof {
                    lemma_views_push(old(out)@, ev);
                    assert(views(old(out)@).push(view_of(ev)) =~= views(old(out)@) + seq![view_of(ev)]);
                }
            } else {
                assert(views(out@) + Seq::<EventView>::empty() =~= views(out@));
            }
            Ok(g + 1)
        },
        None => Err(ParseError::Syntax(i)),
    }
}

/// Parses the markup declaration, comment declaration or marked section at `i` (`<!`).
fn declaration<'a, E: EntityLookup, P: EntityLookup>(
    input: &'a str,
    offs: &Vec<usize>,
    s: &Vec<char>,
    i: usize,
    b: usize,
    cfg: &ParserConfig<E, P>,
    out: &mut Vec<SgmlEvent<'a>>,
) -> (r: Result<usize, ParseError>)
    requires
        byte_len(s@) <= usize::MAX,
        s@ == input@,
        offsets_of(input, offs@),
        i + 2 <= b <= s.len(),
        cfg.wf(),
        complete(cfg, old(out)@),
    ensures
        fails_within(s@, b as int, r),
        stream_fits(cfg, final(out)@),
        r is Ok ==> complete(cfg, final(out)@),
        r matches Ok(j) ==> i < j <= b,
        outcome_is(declaration_spec(s@, i as int, b as int, cfg), r, old(out)@, final(out)@),
    decreases b - i, 1nat,
{
    proof {
        assert(views(out@) + Seq::<EventView>::empty() =~= views(out@));
    }
    if b - i > 3 && s[i + 2] == '-' && s[i + 3] == '-' {
        let pat: [char; 3] = ['-', '-', '>'];
        assert(pat@ =~= seq!['-', '-', '>']);
        return match find_from(s, i + 4, b, pat.as_slice()) {
            Some(c) => Ok(c + 3),
            None => Err(ParseError::Syntax(i)),
        };
    }
    if i + 2 < b && s[i + 2] == '>' {
        return Ok(i + 3);
    }
    if i + 2 < b && s[i + 2] == '[' {
        return marked_section(input, offs, s, i, b, cfg, out);
    }
    match declaration_end(s, i + 2, b) {
        Some(g) => {
            let raw = slice_of(input, offs, i, g + 1);
            let expanded = match cfg.parse_markup_declaration_text(raw) {
                Ok(t) => t,
                Err(err) => {
                    return Err(ParseError::Entity(shift_error(s, i, Ghost(raw@), err)));
                },
            };
            if !cfg.ignore_markup_declarations {
                let ev = SgmlEvent::MarkupDeclaration(expanded);
                proof {
                    lemma_push_fits(cfg, out@, ev);
                    lemma_views_push(out@, ev);
                }
                out.push(ev);
                assert(views(out@) =~= views(old(out)@) + seq![view_of(ev)]);
            }
            Ok(g + 1)
        },
        None => Err(ParseError::Syntax(i)),
    }
}

/// Parses the marked section `<![keywords[section]]>` at `i`.
fn marked_section<'a, E: EntityLookup, P: EntityLookup>(
    input: &'a str,
    offs: &Vec<usize>,
    s: &Vec<char>,
    i: usize,
    b: usize,
    cfg: &ParserConfig<E, P>,
    out: &mut Vec<SgmlEvent<'a>>,
) -> (r: Result<usize, ParseError>)
    requires
        byte_len(s@) <= usize::MAX,
        s@ == input@,
        offsets_of(input, offs@),
        i + 3 <= b <= s.len(),
        cfg.wf(),
        complete(cfg, old(out)@),
    ensures
        fails_within(s@, b as int, r),
        stream_fits(cfg, final(out)@),
        r is Ok ==> complete(cfg, final(out)@),
        r matches Ok(j) ==> i < j <= b,
        outcome_is(marked_spec(s@, i as int, b as int, cfg), r, old(out)@, final(out)@),
    decreases b - i, 0nat,
{
    let open_pat: [char; 1] = ['['];
    assert(open_pat@ =~= seq!['[']);
    let close_pat: [char; 3] = [']', ']', '>'];
    assert(close_pat@ =~= seq![']', ']', '>']);
    let kw_end = match find_from(s, i + 3, b, open_pat.as_slice()) {
        Some(k) => k,
        None => {
            return Err(ParseError::Syntax(i));
        },
    };
    let sec_end = match find_from(s, kw_end + 1, b, close_pat.as_slice()) {
        Some(k) => k,
        None => {
            return Err(ParseError::Syntax(i));
        },
    };
    let raw_keywords = slice_of(input, offs, i + 3, kw_end);
    let keywords = match cfg.parse_markup_declaration_text(raw_keywords) {
        Ok(t) => t,
        Err(err) => {
            return Err(ParseError::Entity(shift_error(s, i + 3, Ghost(raw_keywords@), err)));
        },
    };
    let status = match cfg.marked_section_handling.parse_keywords(crate::parser::trim_sgml_whitespace(keywords.as_str())) {
        Some(st) => st,
        None => {
            return Err(ParseError::Syntax(i));
        },
    };
    if cfg.marked_section_handling == MarkedSectionHandling::KeepUnmodified {
        let ev = SgmlEvent::MarkedSection {
            status_keywords: Text::Borrowed(raw_keywords),
            section: Text::Borrowed(slice_of(input, offs, kw_end + 1, sec_end)),
        };
        proof {
            lemma_push_fits(cfg, out@, ev);
        }
        proof {
            lemma_views_push(out@, ev);
        }
        out.push(ev);
        assert(views(out@) =~= views(old(out)@) + seq![view_of(ev)]);
        return Ok(sec_end + 3);
    }
    let r = match status {
        MarkedSectionStatus::CData => push_data(input, offs, s, kw_end + 1, sec_end, false, cfg, out),
        MarkedSectionStatus::RcData => push_data(input, offs, s, kw_end + 1, sec_end, true, cfg, out),
        MarkedSectionStatus::Ignore => {
            assert(views(out@) + Seq::<EventView>::empty() =~= views(out@));
            Ok(())
        },
        MarkedSectionStatus::Include => events_in(input, offs, s, kw_end + 1, sec_end, cfg, out),
    };
    match r {
        Ok(()) => Ok(sec_end + 3),
        Err(err) => Err(err),
    }
}

/// Parses `s[a..b]` into events appended to `out`. Where no `<` occurs there, the whole
/// range is one run of character data, pushed as `data_pushed` says.
pub fn events_in<'a, E: EntityLookup, P: EntityLookup>(
    input: &'a str,
    offs: &Vec<usize>,
    s: &Vec<char>,
    a: usize,
    b: usize,
    cfg: &ParserConfig<E, P>,
    out: &mut Vec<SgmlEvent<'a>>,
) -> (r: Result<(), ParseError>)
    requires
        byte_len(s@) <= usize::MAX,
        s@ == input@,
        offsets_of(input, offs@),
        a <= b <= s.len(),
        cfg.wf(),
        complete(cfg, old(out)@),
    ensures
        fails_within(s@, b as int, r),
        stream_fits(cfg, final(out)@),
        r is Ok ==> complete(cfg, final(out)@),
        (forall|j: int| a <= j < b ==> s@[j] != '<') ==> data_pushed(
            cfg,
            s@.subrange(a as int, b as int),
            true,
            old(out)@,
            final(out)@,
            r,
        ),
        range_outcome_is(events_spec(s@, a as int, b as int, cfg), r, old(out)@, final(out)@),
    decreases b - a, 2nat,
{
    let mut i: usize = a;
    proof {
        assert(views(out@) + Seq::<EventView>::empty() =~= views(out@));
    }
    if a == b {
        proof {
            assert(kept_text(cfg, s@.subrange(a as int, b as int)).len() == 0) by {
                assert(s@.subrange(a as int, b as int).len() == 0);
                if cfg.trim_whitespace {
                    lemma_trimmed_len(s@.subrange(a as int, b as int));
                }
            }
        }
        return Ok(());
    }
    if s[a] != '<' {
        let e = data_end(s, a, b);
        if e == b {
            let r = push_data(input, offs, s, a, b, true, cfg, out);
            proof {
                assert(!markup_at(s@, a as int, b as int));
                assert(events_spec(s@, b as int, b as int, cfg) == Some(Seq::<EventView>::empty()));
                assert(construct_spec(s@, a as int, b as int, cfg) == match data_events(cfg, s@.subrange(a as int, b as int), true) {
                    Some(evs) => Some((evs, b as int)),
                    None => None,
                });
                if let Some(evs) = data_events(cfg, s@.subrange(a as int, b as int), true) {
                    assert(evs + Seq::<EventView>::empty() =~= evs);
                }
            }
            return r;
        }
        assert(s@[e as int] == '<');
    }
    let ghost before = out@;
    let ghost mut produced: Seq<EventView> = Seq::empty();
    assert(views(out@) =~= views(before) + produced);
    assert(produced + Seq::<EventView>::empty() =~= produced);
    while i < b
        invariant
            a <= i <= b <= s.len(),
            cfg.wf(),
            complete(cfg, out@),
            byte_len(s@) <= usize::MAX,
            s@ == input@,
            offsets_of(input, offs@),
            exists|j: int| a <= j < b && s@[j] == '<',
            views(out@) == views(before) + produced,
            events_spec(s@, a as int, b as int, cfg) == range_join(produced, events_spec(s@, i as int, b as int, cfg)),
        decreases b - i,
    {
        let ghost mid = out@;
        let step = if is_markup_at(s, i, b) {
            let c = s[i + 1];
            if c == '!' {
                declaration(input, offs, s, i, b, cfg, out)
            } else if c == '?' {
                instruction(input, offs, s, i, b, cfg, out)
            } else if c == '/' {
                end_tag(input, offs, s, i, b, cfg, out)
            } else {
                start_tag(input, offs, s, i, b, cfg, out)
            }
        } else {
            let e = data_end(s, i, b);
            match push_data(input, offs, s, i, e, true, cfg, out) {
                Ok(()) => Ok(e),
                Err(err) => Err(err),
            }
        };
        assert(outcome_is(construct_spec(s@, i as int, b as int, cfg), step, mid, out@));
        match step {
            Ok(j) => {
                proof {
                    let evs = match construct_spec(s@, i as int, b as int, cfg) {
                        Some((x, _)) => x,
                        None => Seq::empty(),
                    };
                    assert(views(out@) =~= views(before) + (produced + evs));
                    if let Some(rest) = events_spec(s@, j as int, b as int, cfg) {
                        assert(produced + (evs + rest) =~= (produced + evs) + rest);
                    }
                    produced = produced + evs;
                }
                i = j;
            },
            Err(err) => {
                return Err(err);
            },
        }
    }
    proof {
        assert(produced + Seq::<EventView>::empty() =~= produced);
    }
    Ok(())
}

proof fn lemma_trimmed_len(t: Seq<char>)
    requires
        t.len() == 0,
    ensures
        trimmed(t).len() == 0,
{
}

} // verus!
