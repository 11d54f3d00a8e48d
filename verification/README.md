# english_tokenizer

A regex-driven tokenizer that splits a sentence and tags each token with its
type (`word`, `number`, `ordinal`, `email`, `url`, `mention`, `hashtag`,
`emoji`, `emoticon`, `time`, `currency`, `quoted_phrase`, `punctuation`,
`symbol`, and `alien` for text no rule matched), written in Verus.

Layout of `src/`:

- `tokenizer.rs`: the `Tokenizer`, the specification of tokenization
  (`tokenize_spec`), configuration, tags and fingerprints.
- `laws.rs`: properties proved of those specifications.
- `matcher.rs`: `Pattern` and the two trusted calls into the `regex` crate.
- `patterns.rs`, `emoji.rs`, `tags.rs`: the built-in rules and tag names.
- `contractions.rs`: the contraction table and possessive splitting.
- `text.rs`: white space, trimming, splitting, and UTF-8 byte slicing.
- `token.rs`: `Token` and `AddError`.

Rules are given as `Pattern`s, which hold the source text of a regular
expression; `Pattern::new` refuses a source that `regex::Regex::new` rejects.
