//! Preparation of labelled text records for classification.
//!
//! A record is a row of string fields under a header. The text field of
//! each record is cleaned, its entities (dates, e-mail addresses, URLs,
//! numbers) are replaced by placeholders and recorded, and the cleaned text
//! is split into tokens, freed of stopwords and stemmed. What each stage
//! yields is appended to the record. The enriched corpus is then shuffled,
//! cut into a training, a validation and a test set, and every record is
//! reduced to the fields that are kept and given a binary label.
//!
//! Text is specified as `Seq<char>`, a token sequence as `Seq<Seq<char>>`,
//! a record as the sequence of its field values. Three things are computed
//! outside this crate and enter the contracts by name only: what the entity
//! pattern matches in a text (`regex`), the stem of a word
//! (`rust_stemmers`), and the lower-case form of a text (std). The order
//! in which the corpus is shuffled is left to chance (`rand`).

pub mod chars;
pub mod clean;
pub mod entities;
pub mod error;
pub mod normalize;
pub mod partition;
pub mod paths;
pub mod record;
pub mod stem;
pub mod stopwords;
pub mod text;
pub mod tokens;
