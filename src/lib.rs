//! Translation of a stream of markdown parse events into a stream of HTML
//! tokens, ready for a serializer.
//!
//! The input vocabulary is [`Event`] (with structural [`Tag`]s), the output
//! vocabulary is [`Token`]. [`Adapter`] performs the translation one token at
//! a time; [`translate`] runs it to the end. The behaviour of both is stated
//! over the model in [`adapter`]: [`adapter::step`] for one request,
//! [`adapter::translation`] for a whole run. [`laws`] and [`balance`] state
//! what holds across requests and runs.

pub mod adapter;
pub mod balance;
pub mod decimal;
pub mod events;
pub mod laws;
pub mod tokens;

pub use adapter::{translate, Adapter, AdapterError, AdapterV};
pub use balance::{balanced, lemma_output_balanced, well_nested};
pub use decimal::decimal_string;
pub use events::{Event, EventV, Tag, TagV};
pub use laws::{lemma_queue_bounded, lemma_rule_start, lemma_translation_repeatable};
pub use tokens::{Token, TokenV};
