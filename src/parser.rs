//! Parser configuration: whitespace trimming, name normalization, marked-section
//! handling, suppression of declarations and processing instructions, and the lookups
//! for entities and parameter entities.
use vstd::prelude::*;
use crate::data::{sgml_whitespace, is_sgml_whitespace, Data};
use crate::entities::{
    answers_by_name, callable, error_is, expand_spec, expand_with, EntityError, EntityLookup,
    LookupFn, NoEntities,
};
use crate::marked_sections::{keyword_status, keywords_from, MarkedSectionStatus};
use crate::text::{chars_of, string_of, Text};
use crate::fragment::SgmlFragment;
use crate::event::SgmlEvent;
use crate::entities::reference_in;
use crate::tokenizer::{EventView, complete, data_pushed, events_in, events_spec, views, ParseError};

verus! {

/// How tag and attribute names are normalized.
#[derive(Clone, Copy, Debug, PartialEq, Eq, Structural)]
pub enum NameNormalization {
    /// Names are kept as they are.
    Unchanged,
    /// Names are put in ASCII lower case.
    ToLowercase,
    /// Names are put in ASCII upper case.
    ToUppercase,
}

/// Names are kept as they are unless asked otherwise.
impl Default for NameNormalization {
    fn default() -> (r: NameNormalization)
        ensures
            r == NameNormalization::Unchanged,
    {
        NameNormalization::Unchanged
    }
}

/// ASCII lower case of `c`.
pub open spec fn lower(c: char) -> char {
    if 'A' <= c && c <= 'Z' {
        ((c as u8) + 32) as char
    } else {
        c
    }
}

/// ASCII upper case of `c`.
pub open spec fn upper(c: char) -> char {
    crate::marked_sections::upper(c)
}

/// `name` as `mode` normalizes it.
pub open spec fn normalized(mode: NameNormalization, name: Seq<char>) -> Seq<char> {
    match mode {
        NameNormalization::Unchanged => name,
        NameNormalization::ToLowercase => name.map_values(|c: char| lower(c)),
        NameNormalization::ToUppercase => name.map_values(|c: char| upper(c)),
    }
}

/// Whether normalizing `name` under `mode` changes a character.
pub open spec fn needs_change(mode: NameNormalization, name: Seq<char>) -> bool {
    match mode {
        NameNormalization::Unchanged => false,
        NameNormalization::ToLowercase => exists|i: int| 0 <= i < name.len() && 'A' <= #[trigger] name[i] && name[i] <= 'Z',
        NameNormalization::ToUppercase => exists|i: int| 0 <= i < name.len() && 'a' <= #[trigger] name[i] && name[i] <= 'z',
    }
}

fn fold_case(v: &Vec<char>, to_lower: bool) -> (r: Vec<char>)
    ensures
        to_lower ==> r@ == v@.map_values(|c: char| lower(c)),
        !to_lower ==> r@ == v@.map_values(|c: char| upper(c)),
{
    let mut out: Vec<char> = Vec::new();
    let mut k: usize = 0;
    while k < v.len()
        invariant
            k <= v.len(),
            to_lower ==> out@ == v@.take(k as int).map_values(|c: char| lower(c)),
            !to_lower ==> out@ == v@.take(k as int).map_values(|c: char| upper(c)),
        decreases v.len() - k,
    {
        let c = v[k];
        let d = if to_lower {
            if 'A' <= c && c <= 'Z' { ((c as u8) + 32) as char } else { c }
        } else {
            if 'a' <= c && c <= 'z' { ((c as u8) - 32) as char } else { c }
        };
        out.push(d);
        k = k + 1;
        proof {
            if to_lower {
                assert(out@ =~= v@.take(k as int).map_values(|c: char| lower(c)));
            } else {
                assert(out@ =~= v@.take(k as int).map_values(|c: char| upper(c)));
            }
        }
    }
    proof {
        assert(v@.take(v.len() as int) =~= v@);
    }
    out
}

/// Whether some character of `v` lies in `lo..=hi`.
fn any_in(v: &Vec<char>, lo: char, hi: char) -> (r: bool)
    ensures
        r == exists|i: int| 0 <= i < v@.len() && lo <= #[trigger] v@[i] && v@[i] <= hi,
{
    let mut k: usize = 0;
    while k < v.len()
        invariant
            k <= v.len(),
            forall|i: int| 0 <= i < k ==> !(lo <= #[trigger] v@[i] && v@[i] <= hi),
        decreases v.len() - k,
    {
        if lo <= v[k] && v[k] <= hi {
            return true;
        }
        k = k + 1;
    }
    false
}

impl NameNormalization {
    /// Normalizes `name`; a name that would not change is handed back as it came.
    pub fn normalize<'a>(&self, name: Text<'a>) -> (r: Text<'a>)
        ensures
            r@ == normalized(*self, name@),
            !needs_change(*self, name@) ==> r == name,
    {
        match self {
            NameNormalization::Unchanged => name,
            NameNormalization::ToLowercase => {
                let v = chars_of(name.as_str());
                if any_in(&v, 'A', 'Z') {
                    Text::Owned(string_of(fold_case(&v, true).as_slice()))
                } else {
                    proof {
                        assert(name@.map_values(|c: char| lower(c)) =~= name@);
                    }
                    name
                }
            },
            NameNormalization::ToUppercase => {
                let v = chars_of(name.as_str());
                if any_in(&v, 'a', 'z') {
                    Text::Owned(string_of(fold_case(&v, false).as_slice()))
                } else {
                    proof {
                        assert(name@.map_values(|c: char| upper(c)) =~= name@);
                    }
                    name
                }
            },
        }
    }
}

/// How marked sections (`<![CDATA[example]]>`) are handled.
#[derive(Clone, Copy, Debug, PartialEq, Eq, Structural)]
pub enum MarkedSectionHandling {
    /// Every marked section stays in the stream as a `MarkedSection` event.
    KeepUnmodified,
    /// `CDATA` and `RCDATA` sections become character data; any other is an error.
    AcceptOnlyCharacterData,
    /// `INCLUDE` and `IGNORE` sections are expanded too.
    ExpandAll,
}

/// Only character-data marked sections are accepted unless asked otherwise.
impl Default for MarkedSectionHandling {
    fn default() -> (r: MarkedSectionHandling)
        ensures
            r == MarkedSectionHandling::AcceptOnlyCharacterData,
    {
        MarkedSectionHandling::AcceptOnlyCharacterData
    }
}

/// The status that `mode` gives to the keywords `k`, or `None` where it rejects them.
pub open spec fn keywords_under(mode: MarkedSectionHandling, k: Seq<char>) -> Option<MarkedSectionStatus> {
    match mode {
        MarkedSectionHandling::AcceptOnlyCharacterData => match keyword_status(k) {
            Some(MarkedSectionStatus::CData) => Some(MarkedSectionStatus::CData),
            Some(MarkedSectionStatus::RcData) => Some(MarkedSectionStatus::RcData),
            _ => None,
        },
        _ => keywords_from(k, 0, MarkedSectionStatus::Include),
    }
}

impl MarkedSectionHandling {
    /// Resolves the status keywords: in `AcceptOnlyCharacterData` mode only a single
    /// `CDATA` or `RCDATA` keyword is accepted; otherwise the keywords combine by their
    /// precedence. `None` if they are rejected.
    pub fn parse_keywords(&self, status_keywords: &str) -> (r: Option<MarkedSectionStatus>)
        ensures
            r == keywords_under(*self, status_keywords@),
    {
        match self {
            MarkedSectionHandling::AcceptOnlyCharacterData => {
                match MarkedSectionStatus::from_keyword(status_keywords) {
                    Some(MarkedSectionStatus::CData) => Some(MarkedSectionStatus::CData),
                    Some(MarkedSectionStatus::RcData) => Some(MarkedSectionStatus::RcData),
                    _ => None,
                }
            },
            _ => MarkedSectionStatus::from_keywords(status_keywords),
        }
    }
}

/// `s` without its leading SGML whitespace.
pub open spec fn trim_start(s: Seq<char>) -> Seq<char>
    decreases s.len(),
{
    if s.len() > 0 && sgml_whitespace(s[0]) {
        trim_start(s.drop_first())
    } else {
        s
    }
}

/// `s` without its trailing SGML whitespace.
pub open spec fn trim_end(s: Seq<char>) -> Seq<char>
    decreases s.len(),
{
    if s.len() > 0 && sgml_whitespace(s.last()) {
        trim_end(s.drop_last())
    } else {
        s
    }
}

/// `s` without its leading and trailing SGML whitespace.
pub open spec fn trimmed(s: Seq<char>) -> Seq<char> {
    trim_end(trim_start(s))
}

/// Relies on `str::trim_matches`: `s` with every leading and trailing character that
/// the predicate accepts removed.
#[verifier::external_body]
pub(crate) fn trim_sgml_whitespace(s: &str) -> (r: &str)
    ensures
        r@ == trimmed(s@),
{
    s.trim_matches(is_sgml_whitespace)
}

/// The configuration of a parser. `E` resolves entities, `P` parameter entities.
pub struct ParserConfig<E: EntityLookup = NoEntities, P: EntityLookup = NoEntities> {
    /// Whether leading and trailing whitespace of character data is trimmed.
    pub trim_whitespace: bool,
    /// How tag and attribute names are normalized.
    pub name_normalization: NameNormalization,
    /// How marked sections are handled.
    pub marked_section_handling: MarkedSectionHandling,
    /// Whether markup declarations are left out of the stream.
    pub ignore_markup_declarations: bool,
    /// Whether processing instructions are left out of the stream.
    pub ignore_processing_instructions: bool,
    /// Resolves entity names; `NoEntities` resolves none.
    pub entity_lookup: E,
    /// Resolves parameter-entity names; `NoEntities` resolves none.
    pub parameter_entity_lookup: P,
}

impl<E: EntityLookup, P: EntityLookup> ParserConfig<E, P> {
    /// Both lookups may be called on any name.
    pub open spec fn wf(&self) -> bool {
        self.entity_lookup.ready() && self.parameter_entity_lookup.ready()
    }

    /// Trims `text` if the configuration asks for it.
    pub fn trim<'a>(&self, text: &'a str) -> (r: &'a str)
        ensures
            self.trim_whitespace ==> r@ == trimmed(text@),
            !self.trim_whitespace ==> r == text,
    {
        if self.trim_whitespace {
            trim_sgml_whitespace(text)
        } else {
            text
        }
    }

    /// Expands the references in replaceable character data, giving final data.
    pub fn parse_rcdata<'a>(&self, rcdata: &'a str) -> (r: Result<Data<'a>, EntityError>)
        requires
            self.wf(),
        ensures
            match (r, expand_spec(rcdata@, '&', true, |n| self.entity_lookup.resolves(n))) {
                (Ok(d), Ok(o)) => d matches Data::CData(t) && t@ == o && (t is Borrowed <==> !rcdata@.contains('&'))
                    && (t is Borrowed ==> t == Text::Borrowed(rcdata)),
                (Err(e), Err((name, a, b))) => error_is(rcdata@, e, name, a, b),
                _ => false,
            },
            r matches Err(e) ==> crate::entities::reference_in(rcdata@, e),
    {
        match expand_with(rcdata, '&', true, &self.entity_lookup) {
            Ok(t) => Ok(Data::CData(t)),
            Err(e) => Err(e),
        }
    }

    /// Expands the parameter-entity references in markup declaration text.
    pub fn parse_markup_declaration_text<'a>(&self, text: &'a str) -> (r: Result<Text<'a>, EntityError>)
        requires
            self.wf(),
        ensures
            crate::entities::expansion_is(
                text,
                '%',
                r,
                expand_spec(text@, '%', false, |n| self.parameter_entity_lookup.resolves(n)),
            ),
            r matches Err(e) ==> crate::entities::reference_in(text@, e),
    {
        expand_with(text, '%', false, &self.parameter_entity_lookup)
    }
}

/// The default configuration: whitespace trimmed, names unchanged, only character-data
/// marked sections, no entity resolved, declarations and instructions kept.
impl Default for ParserConfig {
    fn default() -> (r: ParserConfig)
        ensures
            r.trim_whitespace,
            r.name_normalization == NameNormalization::Unchanged,
            r.marked_section_handling == MarkedSectionHandling::AcceptOnlyCharacterData,
            !r.ignore_markup_declarations,
            !r.ignore_processing_instructions,
            r.wf(),
    {
        ParserConfig {
            trim_whitespace: true,
            name_normalization: NameNormalization::Unchanged,
            marked_section_handling: MarkedSectionHandling::AcceptOnlyCharacterData,
            ignore_markup_declarations: false,
            ignore_processing_instructions: false,
            entity_lookup: NoEntities,
            parameter_entity_lookup: NoEntities,
        }
    }
}

/// Whether `a` and `b` agree on every option but the lookups.
pub open spec fn same_options<EA: EntityLookup, PA: EntityLookup, EB: EntityLookup, PB: EntityLookup>(
    a: &ParserConfig<EA, PA>,
    b: &ParserConfig<EB, PB>,
) -> bool {
    &&& a.trim_whitespace == b.trim_whitespace
    &&& a.name_normalization == b.name_normalization
    &&& a.marked_section_handling == b.marked_section_handling
    &&& a.ignore_markup_declarations == b.ignore_markup_declarations
    &&& a.ignore_processing_instructions == b.ignore_processing_instructions
}

/// The parser for SGML text, which must be decoded beforehand.
pub struct Parser<E: EntityLookup = NoEntities, P: EntityLookup = NoEntities> {
    pub config: ParserConfig<E, P>,
}

impl Parser {
    /// A parser with the default configuration (see `ParserConfig::default`).
    pub fn new() -> (r: Parser)
        ensures
            r.config.wf(),
            r.config.trim_whitespace,
            r.config.name_normalization == NameNormalization::Unchanged,
            r.config.marked_section_handling == MarkedSectionHandling::AcceptOnlyCharacterData,
            !r.config.ignore_markup_declarations,
            !r.config.ignore_processing_instructions,
    {
        Parser { config: ParserConfig::default() }
    }

    /// A builder for a parser, starting from the default configuration.
    pub fn builder() -> (r: ParserBuilder)
        ensures
            r.config.wf(),
            r.config.trim_whitespace,
            r.config.name_normalization == NameNormalization::Unchanged,
            r.config.marked_section_handling == MarkedSectionHandling::AcceptOnlyCharacterData,
            !r.config.ignore_markup_declarations,
            !r.config.ignore_processing_instructions,
    {
        ParserBuilder::new()
    }
}

impl<E: EntityLookup, P: EntityLookup> Parser<E, P> {
    /// Parses the whole of `input` into events, as `events_spec` gives them, or fails
    /// where it fails. A start tag is always an `OpenStartTag`, its attributes, then a
    /// close; names are normalized, suppressed kinds left out. Text without markup becomes
    /// at most one final `Character` event holding its expansion. Names and text that
    /// need no change are borrowed from `input`. A failure points into
    /// the input: malformed markup by a character index, an unresolved reference by its
    /// byte range.
    pub fn parse<'a>(&self, input: &'a str) -> (r: Result<SgmlFragment<'a>, ParseError>)
        requires
            self.config.wf(),
        ensures
            match (r, events_spec(input@, 0, input@.len() as int, &self.config)) {
                (Ok(f), Some(evs)) => views(f.events@) == evs,
                (Err(_), None) => true,
                _ => false,
            },
            r matches Ok(f) ==> complete(&self.config, f.events@),
            r matches Err(ParseError::Syntax(k)) ==> k <= input@.len(),
            r matches Err(ParseError::Entity(e)) ==> reference_in(input@, e),
            !input@.contains('<') ==> data_pushed(
                &self.config,
                input@,
                true,
                Seq::empty(),
                match r {
                    Ok(f) => f.events@,
                    Err(_) => Seq::empty(),
                },
                match r {
                    Ok(_) => Ok(()),
                    Err(e) => Err(e),
                },
            ),
    {
        let s = chars_of(input);
        let total = input.as_bytes().len();
        assert(total == crate::text::byte_len(s@));
        let offs = crate::text::byte_offsets(input, &s);
        let mut out: Vec<SgmlEvent<'a>> = Vec::new();
        proof {
            assert(s@.subrange(0, s@.len() as int) =~= s@);
            assert(!s@.contains('<') ==> forall|j: int| 0 <= j < s@.len() ==> s@[j] != '<');
        }
        let r = events_in(input, &offs, &s, 0, s.len(), &self.config, &mut out);
        proof {
            assert(views(Seq::<SgmlEvent>::empty()) =~= Seq::<EventView>::empty());
            if let Some(evs) = events_spec(s@, 0, s@.len() as int, &self.config) {
                assert(Seq::<EventView>::empty() + evs =~= evs);
            }
        }
        match r {
            Ok(()) => Ok(SgmlFragment::from_events(out)),
            Err(e) => Err(e),
        }
    }
}

/// A fluent interface for configuring parsers.
pub struct ParserBuilder<E: EntityLookup = NoEntities, P: EntityLookup = NoEntities> {
    pub config: ParserConfig<E, P>,
}

impl Default for ParserBuilder {
    fn default() -> (r: ParserBuilder)
        ensures
            r.config.wf(),
            r.config.trim_whitespace,
            r.config.name_normalization == NameNormalization::Unchanged,
            r.config.marked_section_handling == MarkedSectionHandling::AcceptOnlyCharacterData,
            !r.config.ignore_markup_declarations,
            !r.config.ignore_processing_instructions,
    {
        ParserBuilder { config: ParserConfig::default() }
    }
}

impl ParserBuilder {
    /// A builder starting from the default configuration.
    pub fn new() -> (r: ParserBuilder)
        ensures
            r.config.wf(),
            r.config.trim_whitespace,
            r.config.name_normalization == NameNormalization::Unchanged,
            r.config.marked_section_handling == MarkedSectionHandling::AcceptOnlyCharacterData,
            !r.config.ignore_markup_declarations,
            !r.config.ignore_processing_instructions,
    {
        ParserBuilder::default()
    }
}

impl<E: EntityLookup, P: EntityLookup> ParserBuilder<E, P> {
    /// Sets whether whitespace around character data is trimmed.
    pub fn trim_whitespace(self, trim_whitespace: bool) -> (r: Self)
        ensures
            r.config.trim_whitespace == trim_whitespace,
            r.config.name_normalization == self.config.name_normalization,
            r.config.marked_section_handling == self.config.marked_section_handling,
            r.config.ignore_markup_declarations == self.config.ignore_markup_declarations,
            r.config.ignore_processing_instructions == self.config.ignore_processing_instructions,
            r.config.entity_lookup == self.config.entity_lookup,
            r.config.parameter_entity_lookup == self.config.parameter_entity_lookup,
    {
        let mut b = self;
        b.config.trim_whitespace = trim_whitespace;
        b
    }

    /// Sets how tag and attribute names are normalized.
    pub fn name_normalization(self, name_normalization: NameNormalization) -> (r: Self)
        ensures
            r.config.name_normalization == name_normalization,
            r.config.trim_whitespace == self.config.trim_whitespace,
            r.config.marked_section_handling == self.config.marked_section_handling,
            r.config.ignore_markup_declarations == self.config.ignore_markup_declarations,
            r.config.ignore_processing_instructions == self.config.ignore_processing_instructions,
            r.config.entity_lookup == self.config.entity_lookup,
            r.config.parameter_entity_lookup == self.config.parameter_entity_lookup,
    {
        let mut b = self;
        b.config.name_normalization = name_normalization;
        b
    }

    /// Normalizes tag and attribute names to lower case.
    pub fn lowercase_names(self) -> (r: Self)
        ensures
            r.config.name_normalization == NameNormalization::ToLowercase,
            r.config.trim_whitespace == self.config.trim_whitespace,
            r.config.marked_section_handling == self.config.marked_section_handling,
            r.config.ignore_markup_declarations == self.config.ignore_markup_declarations,
            r.config.ignore_processing_instructions == self.config.ignore_processing_instructions,
            r.config.entity_lookup == self.config.entity_lookup,
            r.config.parameter_entity_lookup == self.config.parameter_entity_lookup,
    {
        self.name_normalization(NameNormalization::ToLowercase)
    }

    /// Normalizes tag and attribute names to upper case.
    pub fn uppercase_names(self) -> (r: Self)
        ensures
            r.config.name_normalization == NameNormalization::ToUppercase,
            r.config.trim_whitespace == self.config.trim_whitespace,
            r.config.marked_section_handling == self.config.marked_section_handling,
            r.config.ignore_markup_declarations == self.config.ignore_markup_declarations,
            r.config.ignore_processing_instructions == self.config.ignore_processing_instructions,
            r.config.entity_lookup == self.config.entity_lookup,
            r.config.parameter_entity_lookup == self.config.parameter_entity_lookup,
    {
        self.name_normalization(NameNormalization::ToUppercase)
    }

    /// Resolves entities through `f`. `f` must answer by the name's characters alone: the
    /// contracts of the parse describe the result in terms of that answer, so a stateful
    /// lookup is admitted only where its answers do not depend on its state.
    pub fn expand_entities<F: Fn(&str) -> Option<String>>(self, f: F) -> (r: ParserBuilder<LookupFn<F>, P>)
        requires
            callable(f),
            answers_by_name(f),
        ensures
            same_options(&r.config, &self.config),
            r.config.entity_lookup == LookupFn(f),
            r.config.parameter_entity_lookup == self.config.parameter_entity_lookup,
    {
        let c = self.config;
        ParserBuilder {
            config: ParserConfig {
                trim_whitespace: c.trim_whitespace,
                name_normalization: c.name_normalization,
                marked_section_handling: c.marked_section_handling,
                ignore_markup_declarations: c.ignore_markup_declarations,
                ignore_processing_instructions: c.ignore_processing_instructions,
                entity_lookup: LookupFn(f),
                parameter_entity_lookup: c.parameter_entity_lookup,
            },
        }
    }

    /// Resolves parameter entities through `f`, which must answer by the name's characters
    /// alone, as for `expand_entities`.
    pub fn expand_parameter_entities<F: Fn(&str) -> Option<String>>(self, f: F) -> (r: ParserBuilder<E, LookupFn<F>>)
        requires
            callable(f),
            answers_by_name(f),
        ensures
            same_options(&r.config, &self.config),
            r.config.entity_lookup == self.config.entity_lookup,
            r.config.parameter_entity_lookup == LookupFn(f),
    {
        let c = self.config;
        ParserBuilder {
            config: ParserConfig {
                trim_whitespace: c.trim_whitespace,
                name_normalization: c.name_normalization,
                marked_section_handling: c.marked_section_handling,
                ignore_markup_declarations: c.ignore_markup_declarations,
                ignore_processing_instructions: c.ignore_processing_instructions,
                entity_lookup: c.entity_lookup,
                parameter_entity_lookup: LookupFn(f),
            },
        }
    }

    /// Sets how marked sections are handled.
    pub fn marked_section_handling(self, mode: MarkedSectionHandling) -> (r: Self)
        ensures
            r.config.marked_section_handling == mode,
            r.config.trim_whitespace == self.config.trim_whitespace,
            r.config.name_normalization == self.config.name_normalization,
            r.config.ignore_markup_declarations == self.config.ignore_markup_declarations,
            r.config.ignore_processing_instructions == self.config.ignore_processing_instructions,
            r.config.entity_lookup == self.config.entity_lookup,
            r.config.parameter_entity_lookup == self.config.parameter_entity_lookup,
    {
        let mut b = self;
        b.config.marked_section_handling = mode;
        b
    }

    /// Accepts every marked section, `INCLUDE` and `IGNORE` among them.
    pub fn expand_marked_sections(self) -> (r: Self)
        ensures
            r.config.marked_section_handling == MarkedSectionHandling::ExpandAll,
            r.config.trim_whitespace == self.config.trim_whitespace,
            r.config.name_normalization == self.config.name_normalization,
            r.config.ignore_markup_declarations == self.config.ignore_markup_declarations,
            r.config.ignore_processing_instructions == self.config.ignore_processing_instructions,
            r.config.entity_lookup == self.config.entity_lookup,
            r.config.parameter_entity_lookup == self.config.parameter_entity_lookup,
    {
        self.marked_section_handling(MarkedSectionHandling::ExpandAll)
    }

    /// Sets whether markup declarations are left out of the stream.
    pub fn ignore_markup_declarations(self, ignore: bool) -> (r: Self)
        ensures
            r.config.ignore_markup_declarations == ignore,
            r.config.trim_whitespace == self.config.trim_whitespace,
            r.config.name_normalization == self.config.name_normalization,
            r.config.marked_section_handling == self.config.marked_section_handling,
            r.config.ignore_processing_instructions == self.config.ignore_processing_instructions,
            r.config.entity_lookup == self.config.entity_lookup,
            r.config.parameter_entity_lookup == self.config.parameter_entity_lookup,
    {
        let mut b = self;
        b.config.ignore_markup_declarations = ignore;
        b
    }

    /// Sets whether processing instructions are left out of the stream.
    pub fn ignore_processing_instructions(self, ignore: bool) -> (r: Self)
        ensures
            r.config.ignore_processing_instructions == ignore,
            r.config.trim_whitespace == self.config.trim_whitespace,
            r.config.name_normalization == self.config.name_normalization,
            r.config.marked_section_handling == self.config.marked_section_handling,
            r.config.ignore_markup_declarations == self.config.ignore_markup_declarations,
            r.config.entity_lookup == self.config.entity_lookup,
            r.config.parameter_entity_lookup == self.config.parameter_entity_lookup,
    {
        let mut b = self;
        b.config.ignore_processing_instructions = ignore;
        b
    }

    /// A parser with the configuration built so far.
    pub fn build(self) -> (r: Parser<E, P>)
        ensures
            r.config == self.config,
    {
        Parser { config: self.config }
    }

    /// Parses `input` with the parser built so far.
    pub fn parse<'a>(self, input: &'a str) -> (r: Result<SgmlFragment<'a>, ParseError>)
        requires
            self.config.wf(),
        ensures
            match (r, events_spec(input@, 0, input@.len() as int, &self.config)) {
                (Ok(f), Some(evs)) => views(f.events@) == evs,
                (Err(_), None) => true,
                _ => false,
            },
            r matches Ok(f) ==> complete(&self.config, f.events@),
            r matches Err(ParseError::Syntax(k)) ==> k <= input@.len(),
            r matches Err(ParseError::Entity(e)) ==> reference_in(input@, e),
            !input@.contains('<') ==> data_pushed(
                &self.config,
                input@,
                true,
                Seq::empty(),
                match r {
                    Ok(f) => f.events@,
                    Err(_) => Seq::empty(),
                },
                match r {
                    Ok(_) => Ok(()),
                    Err(e) => Err(e),
                },
            ),
    {
        let p = self.build();
        p.parse(input)
    }

    /// The configuration built so far.
    pub fn into_config(self) -> (r: ParserConfig<E, P>)
        ensures
            r == self.config,
    {
        self.config
    }
}

} // verus!
