//! Token patterns and their categories.
//!
//! Each pattern recognizes one kind of token. The order in [`master`] is load
//! bearing. Higher entries win, so emoticons are tried before time, time before
//! number, number before word, and so on.
//!
//! Several patterns restrict word characters to ASCII with `(?-u:...)` groups,
//! so that `\w` and `\d` mean `[A-Za-z0-9_]` and `[0-9]` there.

use vstd::prelude::*;
use crate::emoji::EMOJI_PATTERN;
use crate::tags;

verus! {

/// Latin ordinals such as `1st`, `2nd`, `12th`, `33rd`, `111th`. Teen endings
/// come first, so a long teen ordinal such as `1011th` stays one token. Digits
/// are ASCII only, so Devanagari digits route through [`NUMBER_DV`] instead.
pub const ORDINAL_L1: &'static str = r"(?-u:\d*1\dth|[04-9]th|1st|2nd|3rd|[02-9]1st|[02-9]2nd|[02-9]3rd|[02-9][04-9]th|\d+\d[04-9]th|\d+\d1st|\d+\d2nd|\d+\d3rd)";

/// Latin numbers, including dates, ip addresses, and fractions via `. - / ,`.
/// Digits are ASCII only, so Devanagari digits route through [`NUMBER_DV`].
pub const NUMBER_L1: &'static str = r"(?-u:\d+/\d+|\d(?:[\.,\-/]?\d)*(?:\.\d+)?)";

/// Devanagari numbers using digits U+0966 to U+096F.
pub const NUMBER_DV: &'static str = r"[\x{0966}-\x{096F}]+/[\x{0966}-\x{096F}]+|[\x{0966}-\x{096F}](?:[\.,\-/]?[\x{0966}-\x{096F}])*(?:\.[\x{0966}-\x{096F}]+)?";

/// At mention. Word characters are ASCII only.
pub const MENTION: &'static str = r"@(?-u:\w)+";

/// Latin hashtag covering the whole Latin-1 letter range plus underscore.
pub const HASHTAG_L1: &'static str = r"(?i)#[a-z\x{00C0}-\x{00D6}\x{00D8}-\x{00F6}\x{00F8}-\x{00FF}_][a-z0-9\x{00C0}-\x{00D6}\x{00D8}-\x{00F6}\x{00F8}-\x{00FF}_]*";

/// Devanagari hashtag.
pub const HASHTAG_DV: &'static str = r"(?i)#[\x{0900}-\x{0963}\x{0970}-\x{097F}_][\x{0900}-\x{0963}\x{0970}-\x{097F}\x{0966}-\x{096F}0-9_]*";

/// Email address. A loose approximation, not an RFC 5322 validator. Local part
/// allows the common special characters plus ASCII word characters, spelled
/// out as `[A-Za-z0-9_]`.
pub const EMAIL: &'static str = r"(?i)[\-!#$%&'*+/=?^A-Za-z0-9_{|}~](?:\.?[\-!#$%&'*+/=?^A-Za-z0-9_`{|}~])*@[a-z0-9](?:-?\.?[a-z0-9])*(?:\.[a-z](?:-?[a-z0-9])*)+";

/// Currency symbols: bitcoin, ruble, rupees, dollar, pound, yen, euro, won.
pub const CURRENCY: &'static str = r"[\x{20BF}\x{20BD}\x{20B9}\x{20A8}$\x{00A3}\x{00A5}\x{20AC}\x{20A9}]";

/// Punctuation, Latin-1 and Devanagari danda and double danda.
pub const PUNCTUATION: &'static str = "['\u{2019}\u{2018}\u{2019}`\u{201C}\u{201D}\"\\[\\](){}\u{2026},.!;?\\-:\u{0964}\u{0965}]";

/// A double quoted span kept whole.
pub const QUOTED_PHRASE: &'static str = r#""[^"]*""#;

/// URL with an explicit http or https scheme. Path characters are ASCII word
/// characters, spelled out as `[A-Za-z0-9_]`, plus a few symbols.
pub const URL: &'static str = r"(?i)(?:https?://)(?:[\da-z\.\-]+)\.(?:[a-z\.]{2,6})(?:[/A-Za-z0-9_\.\-?#=]*)*/?";

/// Common emoticons.
pub const EMOTICON: &'static str = r"(?i):-?[dps*/\[\]{}()]|;-?[/()d]|<3";

/// Times such as `4pm`, `3pm`, `16:00 hours`. The hour and minute digits are
/// ASCII only, so a Devanagari digit does not start a time match.
pub const TIME: &'static str = r"(?i)(?:(?-u:\d)|[01](?-u:\d)|2[0-3]):?(?:[0-5][0-9])?\s?(?:[ap]\.?m\.?|hours|hrs)";

/// Latin word block. Allows an internal or trailing ASCII apostrophe so
/// contractions stay whole for later splitting.
pub const WORD_L1: &'static str = r"(?i)[a-z\x{00C0}-\x{00D6}\x{00D8}-\x{00F6}\x{00F8}-\x{00FF}][a-z\x{00C0}-\x{00D6}\x{00D8}-\x{00F6}\x{00F8}-\x{00FF}']*";

/// Devanagari word block, including vedic accent marks so accented words stay
/// whole. Excludes Om at U+0950 and the digit range.
pub const WORD_DV: &'static str = r"(?i)[\x{0900}-\x{094F}\x{0951}-\x{0963}\x{0970}-\x{097F}]+";

/// Symbols, including Om at U+0950.
pub const SYMBOL: &'static str = r"[\x{0950}~@#%\^\+=\*\|/<>&]";

/// Singular possessive, for example `dog's` to `dog` and `'s`. The whole word
/// must be ASCII letters followed by `'s`.
pub const POS_SINGULAR: &'static str = r"(?i)^[a-z]+'s$";

/// Plural possessive, for example `cats'` to `cats` and `'`. The whole word
/// must be ASCII letters ending in `s`, followed by `'`.
pub const POS_PLURAL: &'static str = r"(?i)^[a-z]+s'$";

/// One pattern paired with the category that tags its matches.
#[derive(Debug)]
pub struct Rule {
    /// The regular expression, as source text.
    pub pattern: String,
    /// Tag applied to matches.
    pub category: String,
}

/// A rule as plain values: the pattern and the category.
pub type RuleView = (Seq<char>, Seq<char>);

impl View for Rule {
    type V = RuleView;

    open spec fn view(&self) -> RuleView {
        (self.pattern@, self.category@)
    }
}

/// The views of a sequence of rules.
pub open spec fn rule_views(rules: Seq<Rule>) -> Seq<RuleView> {
    rules.map_values(|r: Rule| r@)
}

impl Rule {
    /// A rule from a pattern and a category.
    pub fn new(pattern: &str, category: &str) -> (r: Rule)
        ensures
            r@ == (pattern@, category@),
    {
        Rule { pattern: String::from_str(pattern), category: String::from_str(category) }
    }

    /// A copy of this rule.
    pub fn copy(&self) -> (r: Rule)
        ensures
            r@ == self@,
    {
        Rule { pattern: self.pattern.clone(), category: self.category.clone() }
    }
}

/// The built-in rules, in the order they are tried.
pub open spec fn master_rules() -> Seq<RuleView> {
    seq![
        (QUOTED_PHRASE@, tags::QUOTED_PHRASE@),
        (URL@, tags::URL@),
        (EMAIL@, tags::EMAIL@),
        (MENTION@, tags::MENTION@),
        (HASHTAG_L1@, tags::HASHTAG@),
        (HASHTAG_DV@, tags::HASHTAG@),
        (EMOJI_PATTERN@, tags::EMOJI@),
        (EMOTICON@, tags::EMOTICON@),
        (TIME@, tags::TIME@),
        (ORDINAL_L1@, tags::ORDINAL@),
        (NUMBER_L1@, tags::NUMBER@),
        (NUMBER_DV@, tags::NUMBER@),
        (CURRENCY@, tags::CURRENCY@),
        (WORD_L1@, tags::WORD@),
        (WORD_DV@, tags::WORD@),
        (PUNCTUATION@, tags::PUNCTUATION@),
        (SYMBOL@, tags::SYMBOL@),
    ]
}

/// Builds the ordered list of built-in rules.
pub fn master() -> (rules: Vec<Rule>)
    ensures
        rule_views(rules@) == master_rules(),
{
    let rules = vec![
        Rule::new(QUOTED_PHRASE, tags::QUOTED_PHRASE),
        Rule::new(URL, tags::URL),
        Rule::new(EMAIL, tags::EMAIL),
        Rule::new(MENTION, tags::MENTION),
        Rule::new(HASHTAG_L1, tags::HASHTAG),
        Rule::new(HASHTAG_DV, tags::HASHTAG),
        Rule::new(EMOJI_PATTERN, tags::EMOJI),
        Rule::new(EMOTICON, tags::EMOTICON),
        Rule::new(TIME, tags::TIME),
        Rule::new(ORDINAL_L1, tags::ORDINAL),
        Rule::new(NUMBER_L1, tags::NUMBER),
        Rule::new(NUMBER_DV, tags::NUMBER),
        Rule::new(CURRENCY, tags::CURRENCY),
        Rule::new(WORD_L1, tags::WORD),
        Rule::new(WORD_DV, tags::WORD),
        Rule::new(PUNCTUATION, tags::PUNCTUATION),
        Rule::new(SYMBOL, tags::SYMBOL),
    ];
    assert(rule_views(rules@) =~= master_rules());
    rules
}

} // verus!
