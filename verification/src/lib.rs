//! A verified parser for a small INI dialect: named sections of key/value
//! pairs, where a value is either a scalar string or a bracketed,
//! comma-separated array of strings, and `;` starts a line comment.
//!
//! The crate is layered in two phases. The grammar engine ([`INIGrammar`])
//! matches an input string against the dialect's rules and produces a parse
//! tree of [`Node`]s, or a syntax error. The tree reducer ([`reduce`])
//! consumes such a tree and materializes a [`Config`]: a collection of
//! [`Section`]s, each mapping keys to [`Value`]s. [`parse_ini`] runs both
//! phases.
//!
//! The grammar itself is defined once, as spec functions over `Seq<char>`
//! (see the `model` module); every executable function is proved to agree
//! with that definition.

mod config;
mod engine;
mod laws;
mod model;
mod reduce;
mod tree;
mod wf;

pub use config::pairs_map_of;
pub use config::sections_map_of;
pub use config::Config;
pub use config::Section;
pub use config::Value;
pub use engine::rule_match_end;
pub use engine::INIGrammar;
pub use laws::is_literal_run;
pub use laws::lemma_array_items_trimmed;
pub use laws::lemma_last_write_wins;
pub use laws::lemma_single_array_round_trip;
pub use laws::lemma_single_pair_round_trip;
pub use laws::lemma_values_literal;
pub use laws::lemma_whitespace_only_parses_empty;
pub use laws::literal_value;
pub use laws::map_values_literal;
pub use model::ini_model;
pub use model::LinePayload;
pub use model::ValueModel;
pub use reduce::node_value_model;
pub use reduce::parse_ini;
pub use reduce::reduce;
pub use reduce::shape_file_ok;
pub use reduce::tree_model;
pub use tree::Node;
pub use tree::ParseError;
pub use tree::Rule;
pub use tree::Span;
pub use wf::wf_by_rule;
pub use wf::wf_file;
