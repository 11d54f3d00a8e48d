//! Regex-driven tokenizer that tags each token with its type.
//!
//! Give it a sentence and it returns an ordered list of tokens. Each token has a
//! `value` and a `tag`. Tags name the token type: `word`, `number`, `ordinal`,
//! `email`, `url`, `mention`, `hashtag`, `emoji`, `emoticon`, `time`, `currency`,
//! `quoted_phrase`, `punctuation`, `symbol`, plus `alien` for text that no active
//! rule matched.
//!
//! The tokenizer covers Latin-1 and Devanagari scripts. It splits common English
//! contractions and possessives into separate word tokens. For example `I'll`
//! becomes `I` and `'ll`, and `dog's` becomes `dog` and `'s`.

pub mod contractions;
pub mod emoji;
pub mod laws;
pub mod matcher;
pub mod patterns;
pub mod tags;
pub mod text;
pub mod token;
pub mod tokenizer;

pub use contractions::CONTRACTION_COUNT;
pub use matcher::Pattern;
pub use token::{AddError, Token};
pub use tokenizer::Tokenizer;
