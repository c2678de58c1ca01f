//! A verified core for a small lightweight-markup-to-HTML converter: a
//! single-pass tokenizer that classifies a character stream into typed
//! spans, and a heading converter that turns one line into an HTML heading
//! element or signals that the line is not a heading.

mod heading;
mod token;
mod tokenizer;

pub use heading::MAX_HEADING_SIZE;
pub use heading::convert_heading;
pub use heading::first_space;
pub use heading::first_space_from;
pub use heading::heading_html;
pub use heading::level_char;
pub use heading::spec_convert_heading;
pub use token::ListType;
pub use token::SpecToken;
pub use token::TextEmphasis;
pub use token::Token;
pub use token::TokenType;
pub use tokenizer::TokenizeError;
pub use tokenizer::all_nonempty;
pub use tokenizer::concat_contents;
pub use tokenizer::grow_last;
pub use tokenizer::hash_run;
pub use tokenizer::lemma_heading_line_tokens;
pub use tokenizer::lemma_tokenize_round_trip;
pub use tokenizer::push_new;
pub use tokenizer::spec_tokenize;
pub use tokenizer::step;
pub use tokenizer::step_hash;
pub use tokenizer::step_other;
pub use tokenizer::step_space;
pub use tokenizer::stream_view;
pub use tokenizer::tokenize;
