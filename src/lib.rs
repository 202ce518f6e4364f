//! Parsing of SGML-family markup into a flat stream of events, with
//! expansion of character, entity and parameter-entity references.
use vstd::prelude::*;

pub mod text;
pub mod entities;
pub mod data;
pub mod event;
pub mod marked_sections;
pub mod parser;
pub mod fragment;
pub mod tokenizer;

pub use data::{is_blank, is_sgml_whitespace, Data};
pub use entities::{expand_characters, expand_entities, expand_parameter_entities, EntityError};
pub use event::SgmlEvent;
pub use fragment::SgmlFragment;
pub use parser::{MarkedSectionHandling, NameNormalization, Parser, ParserBuilder, ParserConfig};
pub use text::Text;
pub use tokenizer::ParseError;

verus! {

} // verus!
