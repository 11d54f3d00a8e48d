//! The built-in tag names. Use `tags::HASHTAG` in place of the `"hashtag"`
//! literal so that a typo fails to compile.

use vstd::prelude::*;

verus! {

/// Double quoted spans, kept whole.
pub const QUOTED_PHRASE: &'static str = "quoted_phrase";

/// Web addresses with an explicit http or https scheme.
pub const URL: &'static str = "url";

/// E-mail addresses.
pub const EMAIL: &'static str = "email";

/// At mentions.
pub const MENTION: &'static str = "mention";

/// Hashtags.
pub const HASHTAG: &'static str = "hashtag";

/// Emoji, including joined and modified sequences.
pub const EMOJI: &'static str = "emoji";

/// Emoticons such as `:-)`.
pub const EMOTICON: &'static str = "emoticon";

/// Times of day such as `4pm`.
pub const TIME: &'static str = "time";

/// Ordinals such as `21st`.
pub const ORDINAL: &'static str = "ordinal";

/// Numbers, dates, addresses and fractions.
pub const NUMBER: &'static str = "number";

/// Currency symbols.
pub const CURRENCY: &'static str = "currency";

/// Words.
pub const WORD: &'static str = "word";

/// Punctuation marks.
pub const PUNCTUATION: &'static str = "punctuation";

/// Other symbols.
pub const SYMBOL: &'static str = "symbol";

/// Text that no active rule matched.
pub const ALIEN: &'static str = "alien";

} // verus!
