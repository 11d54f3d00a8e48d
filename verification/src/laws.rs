//! Properties of the tokenizer that hold across inputs and calls.

use vstd::prelude::*;
use crate::contractions::{
    ascii_upper, contraction_cuts, contraction_table, cut_pieces, entry_cuts, entry_key, key_matches,
    lookup_cuts, title_case, upper_case, word_parts,
};
use crate::emoji::EMOJI_PATTERN;
use crate::patterns::{self, RuleView, master_rules};
use crate::tags;
use crate::text::{
    concat, is_white_space, lemma_concat_push, lemma_leading_text_bounds,
    lemma_leading_white_space_bounds, leading_text, leading_white_space, split_white_space, trim,
    trailing_white_space,
};
use crate::token::TokenView;
use crate::tokenizer::{
    UnitView, alien_tokens, category_enabled, config_flag, categories, code_of, codes_after_add_tag,
    configured_rules, default_codes, fingerprint, gap_units, has_code, match_units, rule_units,
    select_rules, token_mark, tokenize_spec, units_tokens, units_upto, CodeView,
};

verus! {

// ---------------------------------------------------------------------------
// Tags
// ---------------------------------------------------------------------------

/// Every token unit in `us` carries the tag `c`.
spec fn units_tagged(us: Seq<UnitView>, c: Seq<char>) -> bool {
    forall|i: int|
        0 <= i < us.len() ==> (#[trigger] us[i] matches UnitView::Token(_, tag) ==> tag == c)
}

proof fn lemma_units_tagged_add(a: Seq<UnitView>, b: Seq<UnitView>, c: Seq<char>)
    requires
        units_tagged(a, c),
        units_tagged(b, c),
    ensures
        units_tagged(a + b, c),
{
    assert forall|i: int| 0 <= i < (a + b).len() implies (#[trigger] (a + b)[i] matches UnitView::Token(
        _,
        tag,
    ) ==> tag == c) by {
        if i < a.len() {
            assert((a + b)[i] == a[i]);
        } else {
            assert((a + b)[i] == b[i - a.len()]);
        }
    }
}

proof fn lemma_match_units_tagged(category: Seq<char>, m: Seq<char>)
    ensures
        units_tagged(match_units(category, m), category),
{
    let us = match_units(category, m);
    if category == tags::WORD@ && m.contains('\'') {
        assert forall|i: int| 0 <= i < us.len() implies (#[trigger] us[i] matches UnitView::Token(
            _,
            tag,
        ) ==> tag == category) by {
            assert(us[i] == UnitView::Token(word_parts(m)[i], tags::WORD@));
        }
    }
}

proof fn lemma_units_upto_tagged(
    text: Seq<char>,
    category: Seq<char>,
    spans: Seq<(usize, usize)>,
    k: nat,
)
    ensures
        units_tagged(units_upto(text, category, spans, k), category),
    decreases k,
{
    if k > 0 {
        let j = (k - 1) as nat;
        lemma_units_upto_tagged(text, category, spans, j);
        let g = gap_units(
            crate::text::bytes_between(
                text,
                crate::tokenizer::match_end(spans, j as int),
                spans[j as int].0 as int,
            ),
        );
        let m = crate::text::bytes_between(text, spans[j as int].0 as int, spans[j as int].1 as int);
        assert(units_tagged(g, category));
        lemma_match_units_tagged(category, m);
        lemma_units_tagged_add(units_upto(text, category, spans, j), g, category);
        lemma_units_tagged_add(units_upto(text, category, spans, j) + g, match_units(category, m), category);
    }
}

proof fn lemma_rule_units_tagged(rule: RuleView, text: Seq<char>)
    ensures
        units_tagged(rule_units(rule, text), rule.1),
{
    let spans = crate::matcher::regex_find_all(rule.0, text);
    lemma_units_upto_tagged(text, rule.1, spans, spans.len());
    let g = gap_units(
        crate::text::bytes_between(
            text,
            crate::tokenizer::match_end(spans, spans.len() as int),
            vstd::utf8::encode_utf8(text).len() as int,
        ),
    );
    assert(units_tagged(g, rule.1));
    lemma_units_tagged_add(units_upto(text, rule.1, spans, spans.len()), g, rule.1);
}

/// The tag of a token is `alien` or the category of one of the rules.
spec fn tag_from(rules: Seq<RuleView>, tag: Seq<char>) -> bool {
    tag == tags::ALIEN@ || categories(rules).contains(tag)
}

proof fn lemma_tokenize_tags(rules: Seq<RuleView>, text: Seq<char>)
    ensures
        forall|i: int|
            0 <= i < tokenize_spec(rules, text).len() ==> tag_from(
                rules,
                #[trigger] tokenize_spec(rules, text)[i].1,
            ),
    decreases rules.len(), 0nat,
{
    let ts = tokenize_spec(rules, text);
    if rules.len() == 0 {
        assert forall|i: int| 0 <= i < ts.len() implies tag_from(rules, #[trigger] ts[i].1) by {
            assert(ts[i] == (split_white_space(text)[i], tags::ALIEN@));
        }
    } else {
        let rest = rules.drop_first();
        let us = rule_units(rules[0], trim(text));
        lemma_rule_units_tagged(rules[0], trim(text));
        lemma_units_tokens_tags(rest, us, rules[0].1, us.len());
        assert(us.take(us.len() as int) =~= us);
        assert(ts == units_tokens(rest, us));
        assert forall|i: int| 0 <= i < ts.len() implies tag_from(rules, #[trigger] ts[i].1) by {
            let tag = ts[i].1;
            assert(tag_from(rest, tag) || tag == rules[0].1);
            if categories(rest).contains(tag) {
                let m = choose|m: int| 0 <= m < categories(rest).len() && categories(rest)[m] == tag;
                assert(rest[m] == rules[m + 1]);
                assert(categories(rules)[m + 1] == tag);
                assert(categories(rules).contains(tag));
            }
            if tag == rules[0].1 {
                assert(categories(rules)[0] == tag);
                assert(categories(rules).contains(tag));
            }
        }
    }
}

proof fn lemma_units_tokens_tags(rules: Seq<RuleView>, us: Seq<UnitView>, c: Seq<char>, k: nat)
    requires
        units_tagged(us, c),
        k <= us.len(),
    ensures
        forall|i: int|
            0 <= i < units_tokens(rules, us.take(k as int)).len() ==> (tag_from(
                rules,
                #[trigger] units_tokens(rules, us.take(k as int))[i].1,
            ) || units_tokens(rules, us.take(k as int))[i].1 == c),
    decreases rules.len(), k,
{
    if k > 0 {
        let pre = us.take(k as int);
        assert(pre.drop_last() =~= us.take(k - 1));
        lemma_units_tokens_tags(rules, us, c, (k - 1) as nat);
        let head = units_tokens(rules, us.take(k - 1));
        let last = pre.last();
        assert(last == us[k - 1]);
        let extra = match last {
            UnitView::Token(v, t) => seq![(v, t)],
            UnitView::Fragment(f) => tokenize_spec(rules, f),
        };
        assert(units_tokens(rules, pre) == head + extra);
        match last {
            UnitView::Token(v, t) => {},
            UnitView::Fragment(f) => {
                lemma_tokenize_tags(rules, f);
            },
        }
        assert forall|i: int|
            0 <= i < units_tokens(rules, pre).len() implies (tag_from(
            rules,
            #[trigger] units_tokens(rules, pre)[i].1,
        ) || units_tokens(rules, pre)[i].1 == c) by {
            if i < head.len() {
                assert(units_tokens(rules, pre)[i] == head[i]);
            } else {
                assert(units_tokens(rules, pre)[i] == extra[i - head.len()]);
            }
        }
    }
}

/// Every token's tag is `alien` or the category of one of the active rules:
/// a rule tags its matches with its own category (contraction and possessive
/// parts of a `word` match are `word` tokens), and text that no rule matched is
/// `alien`.
pub proof fn law_tags_come_from_rules(rules: Seq<RuleView>, text: Seq<char>, i: int)
    requires
        0 <= i < tokenize_spec(rules, text).len(),
    ensures
        tokenize_spec(rules, text)[i].1 == tags::ALIEN@ || categories(rules).contains(
            tokenize_spec(rules, text)[i].1,
        ),
{
    lemma_tokenize_tags(rules, text);
    assert(tag_from(rules, tokenize_spec(rules, text)[i].1));
}

/// With no active rules, the text splits on white space and every piece is an
/// `alien` token.
pub proof fn law_no_rules_all_alien(text: Seq<char>)
    ensures
        tokenize_spec(configured_rules(Seq::empty()), text) == alien_tokens(
            split_white_space(text),
        ),
{
}

/// An added rule is tried before every other rule: the text is first split by
/// its matches, and only the rest goes to the other rules.
pub proof fn law_added_rule_first(rule: RuleView, rules: Seq<RuleView>, text: Seq<char>)
    ensures
        tokenize_spec(seq![rule] + rules, text) == units_tokens(rules, rule_units(rule, trim(text))),
{
    assert((seq![rule] + rules).drop_first() =~= rules);
    assert((seq![rule] + rules)[0] == rule);
}

// ---------------------------------------------------------------------------
// Configuration
// ---------------------------------------------------------------------------

proof fn lemma_select_rules(rules: Seq<RuleView>, config: Seq<(Seq<char>, bool)>, r: RuleView)
    ensures
        select_rules(rules, config).contains(r) <==> rules.contains(r) && category_enabled(
            config,
            r.1,
        ),
    decreases rules.len(),
{
    if rules.len() > 0 {
        let d = rules.drop_last();
        lemma_select_rules(d, config, r);
        let kept = select_rules(d, config);
        assert(rules =~= d.push(rules.last()));
        if rules.contains(r) && r != rules.last() {
            let m = choose|m: int| 0 <= m < rules.len() && rules[m] == r;
            assert(d[m] == r);
        }
        if d.contains(r) {
            let m = choose|m: int| 0 <= m < d.len() && d[m] == r;
            assert(rules[m] == r);
        }
        if category_enabled(config, rules.last().1) {
            let out = kept.push(rules.last());
            if kept.contains(r) {
                let m = choose|m: int| 0 <= m < kept.len() && kept[m] == r;
                assert(out[m] == r);
            }
            if out.contains(r) && r != rules.last() {
                let m = choose|m: int| 0 <= m < out.len() && out[m] == r;
                assert(kept[m] == r);
            }
            if r == rules.last() {
                assert(out[kept.len() as int] == r);
                assert(rules[rules.len() - 1] == r);
            }
        } else {
            if r == rules.last() {
                assert(rules[rules.len() - 1] == r);
            }
        }
    }
}

/// After `define_config` with a non-empty configuration, a rule is active
/// exactly when it is a built-in rule whose category the configuration
/// enables: listed categories follow their flag, absent ones stay on, and no
/// added rule survives.
pub proof fn law_configured_rules(config: Seq<(Seq<char>, bool)>, r: RuleView)
    requires
        config.len() > 0,
    ensures
        configured_rules(config).contains(r) <==> master_rules().contains(r) && category_enabled(
            config,
            r.1,
        ),
{
    lemma_select_rules(master_rules(), config, r);
}

/// Every rule that `define_config` leaves active is a built-in rule.
pub proof fn law_configured_rules_are_built_in(config: Seq<(Seq<char>, bool)>, r: RuleView)
    requires
        configured_rules(config).contains(r),
    ensures
        master_rules().contains(r),
{
    if config.len() > 0 {
        lemma_select_rules(master_rules(), config, r);
    }
}

/// A new tokenizer has every built-in rule except those of `quoted_phrase`.
pub proof fn law_default_rules(r: RuleView)
    ensures
        configured_rules(seq![(tags::QUOTED_PHRASE@, false)]).contains(r) <==> master_rules().contains(r)
            && r.1 != tags::QUOTED_PHRASE@,
{
    let config = seq![(tags::QUOTED_PHRASE@, false)];
    lemma_select_rules(master_rules(), config, r);
    assert(config.drop_last() =~= Seq::<(Seq<char>, bool)>::empty());
    assert(config.last() == (tags::QUOTED_PHRASE@, false));
    assert(config.len() == 1);
    assert(config.last().0 == tags::QUOTED_PHRASE@);
    assert(config_flag(config.drop_last(), r.1) is None);
    if r.1 == tags::QUOTED_PHRASE@ {
        assert(config_flag(config, r.1) == Some(false));
    } else {
        assert(config_flag(config, r.1) is None);
    }
}

// ---------------------------------------------------------------------------
// Fingerprints and tags
// ---------------------------------------------------------------------------

proof fn lemma_fingerprint_len(codes: Seq<CodeView>, tokens: Seq<TokenView>, k: int)
    requires
        0 <= k <= tokens.len(),
        forall|i: int| 0 <= i < tokens.len() ==> #[trigger] token_mark(codes, tokens[i]).len() == 1,
    ensures
        concat(tokens.map_values(|t: TokenView| token_mark(codes, t)).take(k)).len() == k,
    decreases k,
{
    let marks = tokens.map_values(|t: TokenView| token_mark(codes, t));
    if k == 0 {
        assert(marks.take(0) =~= Seq::<Seq<char>>::empty());
    } else {
        lemma_fingerprint_len(codes, tokens, k - 1);
        assert(marks.take(k) =~= marks.take(k - 1).push(marks[k - 1]));
        lemma_concat_push(marks.take(k - 1), marks[k - 1]);
        assert(marks[k - 1] == token_mark(codes, tokens[k - 1]));
    }
}

/// When every token contributes one character (its tag has a one-character
/// code, or, without a code, its text is one character), the fingerprint has
/// one character per token.
pub proof fn law_fingerprint_one_char_per_token(codes: Seq<CodeView>, tokens: Seq<TokenView>)
    requires
        forall|i: int| 0 <= i < tokens.len() ==> #[trigger] token_mark(codes, tokens[i]).len() == 1,
    ensures
        fingerprint(codes, tokens).len() == tokens.len(),
{
    lemma_fingerprint_len(codes, tokens, tokens.len() as int);
    let marks = tokens.map_values(|t: TokenView| token_mark(codes, t));
    assert(marks.take(tokens.len() as int) =~= marks);
}

proof fn lemma_code_of_push(codes: Seq<CodeView>, name: Seq<char>, code: Seq<char>, tag: Seq<char>)
    ensures
        code_of(codes.push((name, code)), tag) == (if tag == name {
            Some(code)
        } else {
            code_of(codes, tag)
        }),
{
    assert(codes.push((name, code)).drop_last() =~= codes);
}

/// A successful `add_tag(name, code)` gives `name` the code, so that a second
/// `add_tag` of the same name fails with `TagExists`, and leaves the codes of
/// every other tag as they were.
pub proof fn law_add_tag_registers(
    codes: Seq<CodeView>,
    name: Seq<char>,
    code: Seq<char>,
    other: Seq<char>,
)
    requires
        !has_code(codes, name),
        code.len() > 0,
        other != name,
    ensures
        code_of(codes_after_add_tag(codes, name, code), name) == Some(code),
        has_code(codes_after_add_tag(codes, name, code), name),
        code_of(codes_after_add_tag(codes, name, code), other) == code_of(codes, other),
{
    lemma_code_of_push(codes, name, code, name);
    lemma_code_of_push(codes, name, code, other);
}

/// A refused `add_tag` changes no code.
pub proof fn law_refused_add_tag_changes_nothing(codes: Seq<CodeView>, name: Seq<char>, code: Seq<char>)
    requires
        has_code(codes, name) || code.len() == 0,
    ensures
        codes_after_add_tag(codes, name, code) == codes,
{
}

/// The default codes give `punctuation` and `symbol` no code, so their tokens
/// put their own text into a fingerprint, and give every other built-in
/// category and `alien` a code of one character.
pub proof fn law_default_codes(t: TokenView)
    ensures
        t.1 == tags::PUNCTUATION@ || t.1 == tags::SYMBOL@ ==> token_mark(default_codes(), t) == t.0,
        t.1 == tags::WORD@ ==> token_mark(default_codes(), t) == "w"@,
        t.1 == tags::ALIEN@ ==> token_mark(default_codes(), t) == "z"@,
{
    let d = default_codes();
    reveal_strlit("punctuation");
    reveal_strlit("symbol");
    reveal_strlit("word");
    reveal_strlit("alien");
    reveal_strlit("emoticon");
    reveal_strlit("email");
    reveal_strlit("emoji");
    reveal_strlit("hashtag");
    reveal_strlit("mention");
    reveal_strlit("number");
    reveal_strlit("ordinal");
    reveal_strlit("quoted_phrase");
    reveal_strlit("currency");
    reveal_strlit("time");
    reveal_strlit("url");
    reveal_strlit("w");
    reveal_strlit("z");
    assert(tags::EMOTICON@.len() == 8);
    assert(tags::EMAIL@.len() == 5);
    assert(tags::EMOJI@.len() == 5);
    assert(tags::HASHTAG@.len() == 7);
    assert(tags::MENTION@.len() == 7);
    assert(tags::NUMBER@.len() == 6);
    assert(tags::ORDINAL@.len() == 7);
    assert(tags::QUOTED_PHRASE@.len() == 13);
    assert(tags::CURRENCY@.len() == 8);
    assert(tags::TIME@.len() == 4);
    assert(tags::URL@.len() == 3);
    assert(tags::WORD@.len() == 4);
    assert(tags::ALIEN@.len() == 5);
    assert(tags::PUNCTUATION@.len() == 11);
    assert(tags::SYMBOL@.len() == 6);
    assert(tags::SYMBOL@[0] == 's' && tags::NUMBER@[0] == 'n');
    assert(d.last() == (tags::ALIEN@, "z"@));
    let d12 = d.drop_last();
    assert(d12.last() == (tags::WORD@, "w"@));
    if t.1 == tags::PUNCTUATION@ || t.1 == tags::SYMBOL@ {
        assert forall|i: int| 0 <= i < d.len() implies #[trigger] d[i].0 != t.1 by {
            if i == 0 {
                assert(d[0].0 == tags::EMOTICON@);
            } else if i == 1 {
                assert(d[1].0 == tags::EMAIL@);
            } else if i == 2 {
                assert(d[2].0 == tags::EMOJI@);
            } else if i == 3 {
                assert(d[3].0 == tags::HASHTAG@);
            } else if i == 4 {
                assert(d[4].0 == tags::MENTION@);
            } else if i == 5 {
                assert(d[5].0 == tags::NUMBER@);
            } else if i == 6 {
                assert(d[6].0 == tags::ORDINAL@);
            } else if i == 7 {
                assert(d[7].0 == tags::QUOTED_PHRASE@);
            } else if i == 8 {
                assert(d[8].0 == tags::CURRENCY@);
            } else if i == 9 {
                assert(d[9].0 == tags::TIME@);
            } else if i == 10 {
                assert(d[10].0 == tags::URL@);
            } else if i == 11 {
                assert(d[11].0 == tags::WORD@);
            } else if i == 12 {
                assert(d[12].0 == tags::ALIEN@);
            }
        }
        lemma_code_of_absent(d, t.1);
    }
    if t.1 == tags::WORD@ {
        assert(code_of(d, t.1) == code_of(d12, t.1));
        assert(code_of(d12, t.1) == Some("w"@));
    }
}

proof fn lemma_code_of_absent(codes: Seq<CodeView>, tag: Seq<char>)
    requires
        forall|i: int| 0 <= i < codes.len() ==> #[trigger] codes[i].0 != tag,
    ensures
        code_of(codes, tag) is None,
    decreases codes.len(),
{
    if codes.len() > 0 {
        assert(codes.last() == codes[codes.len() - 1]);
        lemma_code_of_absent(codes.drop_last(), tag);
    }
}

// ---------------------------------------------------------------------------
// Priority of the built-in rules
// ---------------------------------------------------------------------------

/// Every rule of category `a` in `rules` comes before every rule of category `b`.
pub open spec fn tried_before(rules: Seq<RuleView>, a: Seq<char>, b: Seq<char>) -> bool {
    forall|i: int, j: int|
        0 <= i < rules.len() && 0 <= j < rules.len() && #[trigger] rules[i].1 == a
            && #[trigger] rules[j].1 == b ==> i < j
}

/// The built-in rules are tried in this order, each tagging its matches with
/// the category beside it: quoted phrases, URLs, e-mail addresses, mentions,
/// hashtags, emoji, emoticons, times, ordinals, numbers, currency, words,
/// punctuation and, last, symbols.
pub proof fn law_master_order()
    ensures
        master_rules() == seq![
            (patterns::QUOTED_PHRASE@, "quoted_phrase"@),
            (patterns::URL@, "url"@),
            (patterns::EMAIL@, "email"@),
            (patterns::MENTION@, "mention"@),
            (patterns::HASHTAG_L1@, "hashtag"@),
            (patterns::HASHTAG_DV@, "hashtag"@),
            (EMOJI_PATTERN@, "emoji"@),
            (patterns::EMOTICON@, "emoticon"@),
            (patterns::TIME@, "time"@),
            (patterns::ORDINAL_L1@, "ordinal"@),
            (patterns::NUMBER_L1@, "number"@),
            (patterns::NUMBER_DV@, "number"@),
            (patterns::CURRENCY@, "currency"@),
            (patterns::WORD_L1@, "word"@),
            (patterns::WORD_DV@, "word"@),
            (patterns::PUNCTUATION@, "punctuation"@),
            (patterns::SYMBOL@, "symbol"@),
        ],
{
}

/// Among the built-in rules, an e-mail address is tried before a mention, a
/// mention before a number, an emoticon before a time, a time before an
/// ordinal, an ordinal before a number, a number before a word, and a word
/// before punctuation and symbols, so the earlier reading of a text wins.
pub proof fn law_master_priorities()
    ensures
        tried_before(master_rules(), "url"@, "email"@),
        tried_before(master_rules(), "email"@, "mention"@),
        tried_before(master_rules(), "mention"@, "hashtag"@),
        tried_before(master_rules(), "mention"@, "number"@),
        tried_before(master_rules(), "emoticon"@, "time"@),
        tried_before(master_rules(), "time"@, "ordinal"@),
        tried_before(master_rules(), "ordinal"@, "number"@),
        tried_before(master_rules(), "number"@, "word"@),
        tried_before(master_rules(), "word"@, "punctuation"@),
        tried_before(master_rules(), "punctuation"@, "symbol"@),
{
    law_master_order();
    reveal_tag_literals();
}

/// Reveals the text of every tag name.
proof fn reveal_tag_literals()
    ensures
        "quoted_phrase"@.len() == 13 && "quoted_phrase"@[0] == 'q',
        "url"@.len() == 3,
        "email"@.len() == 5 && "email"@[0] == 'e' && "email"@[2] == 'a',
        "emoji"@.len() == 5 && "emoji"@[0] == 'e' && "emoji"@[2] == 'o',
        "mention"@.len() == 7 && "mention"@[0] == 'm',
        "hashtag"@.len() == 7 && "hashtag"@[0] == 'h',
        "ordinal"@.len() == 7 && "ordinal"@[0] == 'o',
        "emoticon"@.len() == 8 && "emoticon"@[0] == 'e',
        "currency"@.len() == 8 && "currency"@[0] == 'c',
        "time"@.len() == 4 && "time"@[0] == 't',
        "word"@.len() == 4 && "word"@[0] == 'w',
        "number"@.len() == 6 && "number"@[0] == 'n',
        "symbol"@.len() == 6 && "symbol"@[0] == 's',
        "punctuation"@.len() == 11,
        "alien"@.len() == 5 && "alien"@[0] == 'a',
{
    reveal_strlit("quoted_phrase");
    reveal_strlit("url");
    reveal_strlit("email");
    reveal_strlit("emoji");
    reveal_strlit("mention");
    reveal_strlit("hashtag");
    reveal_strlit("ordinal");
    reveal_strlit("emoticon");
    reveal_strlit("currency");
    reveal_strlit("time");
    reveal_strlit("word");
    reveal_strlit("number");
    reveal_strlit("symbol");
    reveal_strlit("punctuation");
    reveal_strlit("alien");
}

// ---------------------------------------------------------------------------
// Default fingerprint codes
// ---------------------------------------------------------------------------

/// `code_of` finds the code of an entry whose tag no later entry repeats.
proof fn lemma_code_of_entry(codes: Seq<CodeView>, i: int)
    requires
        0 <= i < codes.len(),
        forall|j: int| i < j < codes.len() ==> #[trigger] codes[j].0 != codes[i].0,
    ensures
        code_of(codes, codes[i].0) == Some(codes[i].1),
    decreases codes.len(),
{
    if i < codes.len() - 1 {
        let d = codes.drop_last();
        assert(codes.last() == codes[codes.len() - 1]);
        assert forall|j: int| i < j < d.len() implies #[trigger] d[j].0 != d[i].0 by {
            assert(d[j] == codes[j]);
        }
        lemma_code_of_entry(d, i);
    }
}

/// The default codes: each built-in category but `punctuation` and `symbol`,
/// and `alien`, has its own one-letter code (`c` emoticon, `e` email, `j`
/// emoji, `h` hashtag, `m` mention, `n` number, `o` ordinal, `q`
/// quoted_phrase, `r` currency, `t` time, `u` url, `w` word, `z` alien); no two
/// tags share a code, and `punctuation` and `symbol` have none.
pub proof fn law_default_code_letters()
    ensures
        code_of(default_codes(), "emoticon"@) == Some("c"@),
        code_of(default_codes(), "email"@) == Some("e"@),
        code_of(default_codes(), "emoji"@) == Some("j"@),
        code_of(default_codes(), "hashtag"@) == Some("h"@),
        code_of(default_codes(), "mention"@) == Some("m"@),
        code_of(default_codes(), "number"@) == Some("n"@),
        code_of(default_codes(), "ordinal"@) == Some("o"@),
        code_of(default_codes(), "quoted_phrase"@) == Some("q"@),
        code_of(default_codes(), "currency"@) == Some("r"@),
        code_of(default_codes(), "time"@) == Some("t"@),
        code_of(default_codes(), "url"@) == Some("u"@),
        code_of(default_codes(), "word"@) == Some("w"@),
        code_of(default_codes(), "alien"@) == Some("z"@),
        code_of(default_codes(), "punctuation"@) is None,
        code_of(default_codes(), "symbol"@) is None,
        forall|i: int, j: int|
            0 <= i < j < default_codes().len() ==> #[trigger] default_codes()[i].1
                != #[trigger] default_codes()[j].1,
{
    let d = default_codes();
    reveal_tag_literals();
    reveal_strlit("c");
    reveal_strlit("e");
    reveal_strlit("j");
    reveal_strlit("h");
    reveal_strlit("m");
    reveal_strlit("n");
    reveal_strlit("o");
    reveal_strlit("q");
    reveal_strlit("r");
    reveal_strlit("t");
    reveal_strlit("u");
    reveal_strlit("w");
    reveal_strlit("z");
    assert(d.len() == 13);
    assert(d[0].0 == "emoticon"@);
    assert(d[1].0 == "email"@);
    assert(d[2].0 == "emoji"@);
    assert(d[3].0 == "hashtag"@);
    assert(d[4].0 == "mention"@);
    assert(d[5].0 == "number"@);
    assert(d[6].0 == "ordinal"@);
    assert(d[7].0 == "quoted_phrase"@);
    assert(d[8].0 == "currency"@);
    assert(d[9].0 == "time"@);
    assert(d[10].0 == "url"@);
    assert(d[11].0 == "word"@);
    assert(d[12].0 == "alien"@);
    assert(forall|j: int| 0 < j < 13 ==> #[trigger] d[j].0 != d[0].0);
    assert(forall|j: int| 1 < j < 13 ==> #[trigger] d[j].0 != d[1].0);
    assert(forall|j: int| 2 < j < 13 ==> #[trigger] d[j].0 != d[2].0);
    assert(forall|j: int| 3 < j < 13 ==> #[trigger] d[j].0 != d[3].0);
    assert(forall|j: int| 4 < j < 13 ==> #[trigger] d[j].0 != d[4].0);
    assert(forall|j: int| 5 < j < 13 ==> #[trigger] d[j].0 != d[5].0);
    assert(forall|j: int| 6 < j < 13 ==> #[trigger] d[j].0 != d[6].0);
    assert(forall|j: int| 7 < j < 13 ==> #[trigger] d[j].0 != d[7].0);
    assert(forall|j: int| 8 < j < 13 ==> #[trigger] d[j].0 != d[8].0);
    assert(forall|j: int| 9 < j < 13 ==> #[trigger] d[j].0 != d[9].0);
    assert(forall|j: int| 10 < j < 13 ==> #[trigger] d[j].0 != d[10].0);
    assert(forall|j: int| 11 < j < 13 ==> #[trigger] d[j].0 != d[11].0);
    assert forall|i: int| 0 <= i < 13 implies #[trigger] d[i].1.len() == 1 by {}
    assert forall|i: int, j: int| 0 <= i < j < 13 implies #[trigger] d[i].1 != #[trigger] d[j].1 by {
        assert(d[i].1[0] != d[j].1[0]);
    }
    lemma_code_of_entry(d, 0);
    lemma_code_of_entry(d, 1);
    lemma_code_of_entry(d, 2);
    lemma_code_of_entry(d, 3);
    lemma_code_of_entry(d, 4);
    lemma_code_of_entry(d, 5);
    lemma_code_of_entry(d, 6);
    lemma_code_of_entry(d, 7);
    lemma_code_of_entry(d, 8);
    lemma_code_of_entry(d, 9);
    lemma_code_of_entry(d, 10);
    lemma_code_of_entry(d, 11);
    lemma_code_of_entry(d, 12);
    assert forall|i: int| 0 <= i < 13 implies #[trigger] d[i].0 != "punctuation"@ && d[i].0
        != "symbol"@ by {}
    lemma_code_of_absent(d, "punctuation"@);
    lemma_code_of_absent(d, "symbol"@);
}

// ---------------------------------------------------------------------------
// Which categories a configuration enables
// ---------------------------------------------------------------------------

/// No entry of `config` names `category`.
pub open spec fn unlisted(config: Seq<(Seq<char>, bool)>, category: Seq<char>) -> bool {
    forall|i: int| 0 <= i < config.len() ==> #[trigger] config[i].0 != category
}

/// The `i`th entry of `config` is the last one that names its category.
pub open spec fn last_listing(config: Seq<(Seq<char>, bool)>, i: int) -> bool {
    &&& 0 <= i < config.len()
    &&& forall|j: int| i < j < config.len() ==> #[trigger] config[j].0 != config[i].0
}

/// A category that the configuration does not list stays enabled; a listed
/// one follows the flag of its last listing.
pub proof fn law_config_flags(config: Seq<(Seq<char>, bool)>, category: Seq<char>, i: int)
    ensures
        unlisted(config, category) ==> category_enabled(config, category),
        last_listing(config, i) && config[i].0 == category ==> category_enabled(config, category)
            == config[i].1,
    decreases config.len(),
{
    if config.len() > 0 {
        let d = config.drop_last();
        assert(config.last() == config[config.len() - 1]);
        if unlisted(config, category) {
            assert forall|k: int| 0 <= k < d.len() implies #[trigger] d[k].0 != category by {
                assert(d[k] == config[k]);
            }
        }
        if last_listing(config, i) && i < config.len() - 1 {
            assert forall|k: int| i < k < d.len() implies #[trigger] d[k].0 != d[i].0 by {
                assert(d[k] == config[k]);
            }
        }
        law_config_flags(d, category, i);
    }
}

/// With a non-empty configuration, each built-in rule whose category the
/// configuration does not list stays active, and one whose category's last
/// listing is `false` is dropped.
pub proof fn law_unlisted_rules_stay(config: Seq<(Seq<char>, bool)>, r: RuleView, i: int)
    requires
        config.len() > 0,
        master_rules().contains(r),
    ensures
        unlisted(config, r.1) ==> configured_rules(config).contains(r),
        last_listing(config, i) && config[i] == (r.1, false) ==> !configured_rules(
            config,
        ).contains(r),
        last_listing(config, i) && config[i] == (r.1, true) ==> configured_rules(config).contains(
            r,
        ),
{
    law_config_flags(config, r.1, i);
    law_configured_rules(config, r);
}

proof fn lemma_select_all(rules: Seq<RuleView>, config: Seq<(Seq<char>, bool)>)
    requires
        forall|i: int| 0 <= i < config.len() ==> #[trigger] config[i].1,
    ensures
        select_rules(rules, config) == rules,
    decreases rules.len(),
{
    if rules.len() > 0 {
        lemma_select_all(rules.drop_last(), config);
        lemma_flag_true(config, rules.last().1);
        assert(rules.drop_last().push(rules.last()) =~= rules);
    }
}

proof fn lemma_flag_true(config: Seq<(Seq<char>, bool)>, category: Seq<char>)
    requires
        forall|i: int| 0 <= i < config.len() ==> #[trigger] config[i].1,
    ensures
        category_enabled(config, category),
    decreases config.len(),
{
    if config.len() > 0 {
        let d = config.drop_last();
        assert(config.last() == config[config.len() - 1]);
        assert forall|k: int| 0 <= k < d.len() implies #[trigger] d[k].1 by {
            assert(d[k] == config[k]);
        }
        lemma_flag_true(d, category);
    }
}

/// A non-empty configuration whose every flag is `true` disables nothing:
/// every built-in rule stays active, in its order.
pub proof fn law_enabling_keeps_every_rule(config: Seq<(Seq<char>, bool)>)
    requires
        config.len() > 0,
        forall|i: int| 0 <= i < config.len() ==> #[trigger] config[i].1,
    ensures
        configured_rules(config) == master_rules(),
{
    lemma_select_all(master_rules(), config);
}

/// The built-in rules have fourteen categories: hashtags, numbers and words
/// each have two rules and count once.
proof fn lemma_master_category_count()
    ensures
        categories(master_rules()).to_set().len() == 14,
{
    law_master_order();
    reveal_tag_literals();
    let cats = categories(master_rules());
    let names = seq!["quoted_phrase"@, "url"@, "email"@, "mention"@, "hashtag"@, "emoji"@, "emoticon"@, "time"@, "ordinal"@, "number"@, "currency"@, "word"@, "punctuation"@, "symbol"@];
    assert(cats.len() == 17);
    assert(names.no_duplicates()) by {
        assert forall|i: int, j: int| 0 <= i < names.len() && 0 <= j < names.len() && i != j
            implies names[i] != names[j] by {}
    }
    names.unique_seq_to_set();
    assert forall|i: int| 0 <= i < cats.len() implies names.contains(#[trigger] cats[i]) by {
        if i == 0 {
            assert(names[0] == cats[0]);
        } else if i == 1 {
            assert(names[1] == cats[1]);
        } else if i == 2 {
            assert(names[2] == cats[2]);
        } else if i == 3 {
            assert(names[3] == cats[3]);
        } else if i == 4 {
            assert(names[4] == cats[4]);
        } else if i == 5 {
            assert(names[4] == cats[5]);
        } else if i == 6 {
            assert(names[5] == cats[6]);
        } else if i == 7 {
            assert(names[6] == cats[7]);
        } else if i == 8 {
            assert(names[7] == cats[8]);
        } else if i == 9 {
            assert(names[8] == cats[9]);
        } else if i == 10 {
            assert(names[9] == cats[10]);
        } else if i == 11 {
            assert(names[9] == cats[11]);
        } else if i == 12 {
            assert(names[10] == cats[12]);
        } else if i == 13 {
            assert(names[11] == cats[13]);
        } else if i == 14 {
            assert(names[11] == cats[14]);
        } else if i == 15 {
            assert(names[12] == cats[15]);
        } else if i == 16 {
            assert(names[13] == cats[16]);
        }
    }
    assert forall|k: int| 0 <= k < names.len() implies cats.contains(#[trigger] names[k]) by {
        if k == 0 {
            assert(cats[0] == names[0]);
        } else if k == 1 {
            assert(cats[1] == names[1]);
        } else if k == 2 {
            assert(cats[2] == names[2]);
        } else if k == 3 {
            assert(cats[3] == names[3]);
        } else if k == 4 {
            assert(cats[4] == names[4]);
        } else if k == 5 {
            assert(cats[6] == names[5]);
        } else if k == 6 {
            assert(cats[7] == names[6]);
        } else if k == 7 {
            assert(cats[8] == names[7]);
        } else if k == 8 {
            assert(cats[9] == names[8]);
        } else if k == 9 {
            assert(cats[10] == names[9]);
        } else if k == 10 {
            assert(cats[12] == names[10]);
        } else if k == 11 {
            assert(cats[13] == names[11]);
        } else if k == 12 {
            assert(cats[15] == names[12]);
        } else if k == 13 {
            assert(cats[16] == names[13]);
        }
    }
    assert(cats.to_set() =~= names.to_set());
}

/// `define_config` with a non-empty configuration whose every flag is `true`
/// counts all fourteen built-in categories.
pub proof fn law_enabling_counts_every_category(config: Seq<(Seq<char>, bool)>)
    requires
        config.len() > 0,
        forall|i: int| 0 <= i < config.len() ==> #[trigger] config[i].1,
    ensures
        categories(configured_rules(config)).to_set().len() == 14,
{
    law_enabling_keeps_every_rule(config);
    lemma_master_category_count();
}

// ---------------------------------------------------------------------------
// White space
// ---------------------------------------------------------------------------

/// The characters with the Unicode `White_Space` property, which `str::trim`
/// and the regex class `\s` stand for.
pub open spec fn unicode_white_space(c: char) -> bool {
    c == '\t' || c == '\n' || c == '\u{b}' || c == '\u{c}' || c == '\r' || c == ' ' || c
        == '\u{85}' || c == '\u{a0}' || c == '\u{1680}' || c == '\u{2000}' || c == '\u{2001}' || c
        == '\u{2002}' || c == '\u{2003}' || c == '\u{2004}' || c == '\u{2005}' || c == '\u{2006}'
        || c == '\u{2007}' || c == '\u{2008}' || c == '\u{2009}' || c == '\u{200a}' || c
        == '\u{2028}' || c == '\u{2029}' || c == '\u{202f}' || c == '\u{205f}' || c == '\u{3000}'
}

/// What the tokenizer takes for white space, where it trims a fragment and
/// where it splits text that no rule matched, is exactly Unicode
/// `White_Space`: tab, line feed, vertical tab, form feed, carriage return,
/// space, next line, no-break space and the other Unicode spaces and
/// separators.
pub proof fn law_white_space_is_unicode(c: char)
    ensures
        is_white_space(c) <==> unicode_white_space(c),
{
    if '\u{9}' <= c && c <= '\u{d}' {
        assert(c == '\t' || c == '\n' || c == '\u{b}' || c == '\u{c}' || c == '\r') by {
            let n = c as u32;
            assert(9 <= n <= 13);
        }
    }
    if '\u{2000}' <= c && c <= '\u{200a}' {
        assert(c == '\u{2000}' || c == '\u{2001}' || c == '\u{2002}' || c == '\u{2003}' || c
            == '\u{2004}' || c == '\u{2005}' || c == '\u{2006}' || c == '\u{2007}' || c == '\u{2008}'
            || c == '\u{2009}' || c == '\u{200a}') by {
            let n = c as u32;
            assert(0x2000 <= n <= 0x200a);
        }
    }
}

/// Splitting text on white space runs leaves no white space character in
/// any piece.
pub proof fn law_split_pieces_hold_no_white_space(s: Seq<char>, i: int, k: int)
    requires
        0 <= i < split_white_space(s).len(),
        0 <= k < split_white_space(s)[i].len(),
    ensures
        !unicode_white_space(split_white_space(s)[i][k]),
    decreases s.len(),
{
    let n = leading_text(s);
    lemma_leading_text_bounds(s);
    if n >= s.len() {
        assert(split_white_space(s)[i] == s);
        law_white_space_is_unicode(s[k]);
    } else {
        let rest = s.skip(n as int);
        lemma_leading_white_space_bounds(rest);
        assert(rest[0] == s[n as int]);
        let next = rest.skip(leading_white_space(rest) as int);
        assert(split_white_space(s) == seq![s.take(n as int)] + split_white_space(next));
        if i == 0 {
            assert(split_white_space(s)[0] == s.take(n as int));
            law_white_space_is_unicode(s[k]);
        } else {
            assert(split_white_space(s)[i] == split_white_space(next)[i - 1]);
            law_split_pieces_hold_no_white_space(next, i - 1, k);
        }
    }
}

proof fn lemma_trailing_white_space_bounds(s: Seq<char>)
    ensures
        trailing_white_space(s) <= s.len(),
        trailing_white_space(s) < s.len() ==> !is_white_space(
            s[s.len() - trailing_white_space(s) - 1],
        ),
        forall|i: int|
            s.len() - trailing_white_space(s) <= i < s.len() ==> #[trigger] is_white_space(s[i]),
    decreases s.len(),
{
    if s.len() > 0 && is_white_space(s.last()) {
        let t = s.drop_last();
        lemma_trailing_white_space_bounds(t);
        assert forall|i: int| s.len() - trailing_white_space(s) <= i < s.len() implies #[trigger] is_white_space(
            s[i],
        ) by {
            if i < s.len() - 1 {
                assert(s[i] == t[i]);
            }
        }
        if trailing_white_space(s) < s.len() {
            assert(s[s.len() - trailing_white_space(s) - 1] == t[t.len() - trailing_white_space(t) - 1]);
        }
    }
}

/// Trimming takes away white space at both ends and nothing else: what is
/// left is a stretch of the text that neither starts nor ends with white
/// space, and every character before and after it is white space.
pub proof fn law_trim_drops_outer_white_space(s: Seq<char>)
    ensures
        trim(s).len() > 0 ==> !unicode_white_space(trim(s)[0]) && !unicode_white_space(
            trim(s).last(),
        ),
        exists|a: int|
            0 <= a && a + trim(s).len() <= s.len() && trim(s) == #[trigger] s.subrange(a, a + trim(s).len())
                && (forall|m: int| 0 <= m < a ==> unicode_white_space(#[trigger] s[m])) && (forall|
                m: int,
            |
                a + trim(s).len() <= m < s.len() ==> unicode_white_space(#[trigger] s[m])),
{
    let a = leading_white_space(s) as int;
    lemma_leading_white_space_bounds(s);
    let t = s.skip(a);
    lemma_trailing_white_space_bounds(t);
    let b = t.len() - trailing_white_space(t);
    let r = trim(s);
    assert(r == t.take(b));
    assert(r =~= s.subrange(a, a + b));
    if r.len() > 0 {
        assert(r[0] == s[a]);
        law_white_space_is_unicode(s[a]);
        assert(r.last() == t[b - 1]);
        law_white_space_is_unicode(t[b - 1]);
    }
    assert forall|m: int| 0 <= m < a implies unicode_white_space(#[trigger] s[m]) by {
        law_white_space_is_unicode(s[m]);
    }
    assert forall|m: int| a + r.len() <= m < s.len() implies unicode_white_space(#[trigger] s[m]) by {
        assert(s[m] == t[m - a]);
        law_white_space_is_unicode(s[m]);
    }
}

// ---------------------------------------------------------------------------
// Contractions
// ---------------------------------------------------------------------------

/// Position `p` of `key` holds an apostrophe, or the character after it does.
pub open spec fn apostrophe_at_or_after(key: Seq<char>, p: int) -> bool {
    (0 <= p < key.len() && key[p] == '\'') || (0 <= p + 1 < key.len() && key[p + 1] == '\'')
}

/// `cuts` splits `key` at least once; each split falls on an apostrophe or on
/// the character just before one (the `n` of `n't`); and each apostrophe of
/// `key` opens a piece or is the second character of one.
pub open spec fn splits_at_apostrophes(key: Seq<char>, cuts: Seq<usize>) -> bool {
    &&& cuts.len() > 0
    &&& forall|k: int| 0 <= k < cuts.len() ==> apostrophe_at_or_after(key, #[trigger] cuts[k] as int)
    &&& forall|i: int|
        0 <= i < key.len() && #[trigger] key[i] == '\'' ==> exists|k: int|
            0 <= k < cuts.len() && (#[trigger] cuts[k] == i || cuts[k] + 1 == i)
}

/// The table entry `e` splits its text at its apostrophes.
pub open spec fn entry_splits(e: Seq<char>) -> bool {
    splits_at_apostrophes(entry_key(e), entry_cuts(e))
}

/// Each of the first `n` splits falls on an apostrophe or just before one.
spec fn cuts_checked(key: Seq<char>, cuts: Seq<usize>, n: nat) -> bool
    decreases n,
{
    n == 0 || (cuts_checked(key, cuts, (n - 1) as nat) && apostrophe_at_or_after(
        key,
        cuts[n - 1] as int,
    ))
}

/// One of the first `m` splits falls on position `i` or just before it.
spec fn covered(cuts: Seq<usize>, i: int, m: nat) -> bool
    decreases m,
{
    m > 0 && (cuts[m - 1] == i || cuts[m - 1] + 1 == i || covered(cuts, i, (m - 1) as nat))
}

/// Each apostrophe among the first `n` characters is covered by a split.
spec fn apostrophes_checked(key: Seq<char>, cuts: Seq<usize>, n: nat) -> bool
    decreases n,
{
    n == 0 || (apostrophes_checked(key, cuts, (n - 1) as nat) && (key[n - 1] == '\''
        ==> covered(cuts, n - 1, cuts.len())))
}

proof fn lemma_cuts_checked(key: Seq<char>, cuts: Seq<usize>, n: nat, k: int)
    requires
        n <= cuts.len(),
        cuts_checked(key, cuts, n),
        0 <= k < n,
    ensures
        apostrophe_at_or_after(key, cuts[k] as int),
    decreases n,
{
    if k < n - 1 {
        lemma_cuts_checked(key, cuts, (n - 1) as nat, k);
    }
}

proof fn lemma_covered(cuts: Seq<usize>, i: int, m: nat)
    requires
        m <= cuts.len(),
        covered(cuts, i, m),
    ensures
        exists|k: int| 0 <= k < cuts.len() && (#[trigger] cuts[k] == i || cuts[k] + 1 == i),
    decreases m,
{
    if cuts[m - 1] == i || cuts[m - 1] + 1 == i {
        assert(0 <= m - 1 < cuts.len() && (cuts[m - 1] == i || cuts[m - 1] + 1 == i));
    } else {
        lemma_covered(cuts, i, (m - 1) as nat);
    }
}

proof fn lemma_apostrophes_checked(key: Seq<char>, cuts: Seq<usize>, n: nat, i: int)
    requires
        n <= key.len(),
        apostrophes_checked(key, cuts, n),
        0 <= i < n,
        key[i] == '\'',
    ensures
        exists|k: int| 0 <= k < cuts.len() && (#[trigger] cuts[k] == i || cuts[k] + 1 == i),
    decreases n,
{
    if i < n - 1 {
        lemma_apostrophes_checked(key, cuts, (n - 1) as nat, i);
    } else {
        lemma_covered(cuts, i, cuts.len());
    }
}

/// The checks that a computation can settle give `splits_at_apostrophes`.
proof fn lemma_entry_checked(e: Seq<char>)
    requires
        entry_cuts(e).len() > 0,
        cuts_checked(entry_key(e), entry_cuts(e), entry_cuts(e).len()),
        apostrophes_checked(entry_key(e), entry_cuts(e), entry_key(e).len()),
    ensures
        entry_splits(e),
{
    let key = entry_key(e);
    let cuts = entry_cuts(e);
    assert forall|k: int| 0 <= k < cuts.len() implies apostrophe_at_or_after(
        key,
        #[trigger] cuts[k] as int,
    ) by {
        lemma_cuts_checked(key, cuts, cuts.len(), k);
    }
    assert forall|i: int| 0 <= i < key.len() && #[trigger] key[i] == '\'' implies exists|k: int|
        0 <= k < cuts.len() && (#[trigger] cuts[k] == i || cuts[k] + 1 == i) by {
        lemma_apostrophes_checked(key, cuts, key.len(), i);
    }
}

#[verifier::rlimit(60)]
proof fn lemma_entries_0()
    ensures
        entry_splits("ca|n't"@),
        entry_splits("wo|n't"@),
        entry_splits("do|n't"@),
{
    reveal_with_fuel(entry_key, 7);
    reveal_with_fuel(entry_cuts, 7);
    reveal_with_fuel(cuts_checked, 2);
    reveal_with_fuel(apostrophes_checked, 7);
    reveal_with_fuel(covered, 2);
    reveal_strlit("ca|n't");
    reveal_strlit("wo|n't");
    reveal_strlit("do|n't");
    lemma_entry_checked("ca|n't"@);
    lemma_entry_checked("wo|n't"@);
    lemma_entry_checked("do|n't"@);
}

#[verifier::rlimit(60)]
proof fn lemma_entries_1()
    ensures
        entry_splits("does|n't"@),
        entry_splits("did|n't"@),
        entry_splits("is|n't"@),
{
    reveal_with_fuel(entry_key, 9);
    reveal_with_fuel(entry_cuts, 9);
    reveal_with_fuel(cuts_checked, 2);
    reveal_with_fuel(apostrophes_checked, 9);
    reveal_with_fuel(covered, 2);
    reveal_strlit("does|n't");
    reveal_strlit("did|n't");
    reveal_strlit("is|n't");
    lemma_entry_checked("does|n't"@);
    lemma_entry_checked("did|n't"@);
    lemma_entry_checked("is|n't"@);
}

#[verifier::rlimit(60)]
proof fn lemma_entries_2()
    ensures
        entry_splits("are|n't"@),
        entry_splits("was|n't"@),
        entry_splits("were|n't"@),
{
    reveal_with_fuel(entry_key, 9);
    reveal_with_fuel(entry_cuts, 9);
    reveal_with_fuel(cuts_checked, 2);
    reveal_with_fuel(apostrophes_checked, 9);
    reveal_with_fuel(covered, 2);
    reveal_strlit("are|n't");
    reveal_strlit("was|n't");
    reveal_strlit("were|n't");
    lemma_entry_checked("are|n't"@);
    lemma_entry_checked("was|n't"@);
    lemma_entry_checked("were|n't"@);
}

#[verifier::rlimit(60)]
proof fn lemma_entries_3()
    ensures
        entry_splits("has|n't"@),
        entry_splits("have|n't"@),
        entry_splits("had|n't"@),
{
    reveal_with_fuel(entry_key, 9);
    reveal_with_fuel(entry_cuts, 9);
    reveal_with_fuel(cuts_checked, 2);
    reveal_with_fuel(apostrophes_checked, 9);
    reveal_with_fuel(covered, 2);
    reveal_strlit("has|n't");
    reveal_strlit("have|n't");
    reveal_strlit("had|n't");
    lemma_entry_checked("has|n't"@);
    lemma_entry_checked("have|n't"@);
    lemma_entry_checked("had|n't"@);
}

#[verifier::rlimit(60)]
proof fn lemma_entries_4()
    ensures
        entry_splits("could|n't"@),
        entry_splits("would|n't"@),
        entry_splits("should|n't"@),
{
    reveal_with_fuel(entry_key, 11);
    reveal_with_fuel(entry_cuts, 11);
    reveal_with_fuel(cuts_checked, 2);
    reveal_with_fuel(apostrophes_checked, 11);
    reveal_with_fuel(covered, 2);
    reveal_strlit("could|n't");
    reveal_strlit("would|n't");
    reveal_strlit("should|n't");
    lemma_entry_checked("could|n't"@);
    lemma_entry_checked("would|n't"@);
    lemma_entry_checked("should|n't"@);
}

#[verifier::rlimit(60)]
proof fn lemma_entries_5()
    ensures
        entry_splits("might|n't"@),
        entry_splits("must|n't"@),
        entry_splits("need|n't"@),
{
    reveal_with_fuel(entry_key, 10);
    reveal_with_fuel(entry_cuts, 10);
    reveal_with_fuel(cuts_checked, 2);
    reveal_with_fuel(apostrophes_checked, 10);
    reveal_with_fuel(covered, 2);
    reveal_strlit("might|n't");
    reveal_strlit("must|n't");
    reveal_strlit("need|n't");
    lemma_entry_checked("might|n't"@);
    lemma_entry_checked("must|n't"@);
    lemma_entry_checked("need|n't"@);
}

#[verifier::rlimit(60)]
proof fn lemma_entries_6()
    ensures
        entry_splits("sha|n't"@),
        entry_splits("ai|n't"@),
        entry_splits("dare|n't"@),
{
    reveal_with_fuel(entry_key, 9);
    reveal_with_fuel(entry_cuts, 9);
    reveal_with_fuel(cuts_checked, 2);
    reveal_with_fuel(apostrophes_checked, 9);
    reveal_with_fuel(covered, 2);
    reveal_strlit("sha|n't");
    reveal_strlit("ai|n't");
    reveal_strlit("dare|n't");
    lemma_entry_checked("sha|n't"@);
    lemma_entry_checked("ai|n't"@);
    lemma_entry_checked("dare|n't"@);
}

#[verifier::rlimit(60)]
proof fn lemma_entries_7()
    ensures
        entry_splits("ought|n't"@),
        entry_splits("could|n't|'ve"@),
        entry_splits("would|n't|'ve"@),
{
    reveal_with_fuel(entry_key, 14);
    reveal_with_fuel(entry_cuts, 14);
    reveal_with_fuel(cuts_checked, 3);
    reveal_with_fuel(apostrophes_checked, 14);
    reveal_with_fuel(covered, 3);
    reveal_strlit("ought|n't");
    reveal_strlit("could|n't|'ve");
    reveal_strlit("would|n't|'ve");
    lemma_entry_checked("ought|n't"@);
    lemma_entry_checked("could|n't|'ve"@);
    lemma_entry_checked("would|n't|'ve"@);
}

#[verifier::rlimit(60)]
proof fn lemma_entries_8()
    ensures
        entry_splits("should|n't|'ve"@),
        entry_splits("might|n't|'ve"@),
        entry_splits("must|n't|'ve"@),
{
    reveal_with_fuel(entry_key, 15);
    reveal_with_fuel(entry_cuts, 15);
    reveal_with_fuel(cuts_checked, 3);
    reveal_with_fuel(apostrophes_checked, 15);
    reveal_with_fuel(covered, 3);
    reveal_strlit("should|n't|'ve");
    reveal_strlit("might|n't|'ve");
    reveal_strlit("must|n't|'ve");
    lemma_entry_checked("should|n't|'ve"@);
    lemma_entry_checked("might|n't|'ve"@);
    lemma_entry_checked("must|n't|'ve"@);
}

#[verifier::rlimit(60)]
proof fn lemma_entries_9()
    ensures
        entry_splits("i|'m"@),
        entry_splits("i|'ve"@),
        entry_splits("i|'ll"@),
{
    reveal_with_fuel(entry_key, 6);
    reveal_with_fuel(entry_cuts, 6);
    reveal_with_fuel(cuts_checked, 2);
    reveal_with_fuel(apostrophes_checked, 6);
    reveal_with_fuel(covered, 2);
    reveal_strlit("i|'m");
    reveal_strlit("i|'ve");
    reveal_strlit("i|'ll");
    lemma_entry_checked("i|'m"@);
    lemma_entry_checked("i|'ve"@);
    lemma_entry_checked("i|'ll"@);
}

#[verifier::rlimit(60)]
proof fn lemma_entries_10()
    ensures
        entry_splits("i|'d"@),
        entry_splits("i|'d|'ve"@),
        entry_splits("you|'re"@),
{
    reveal_with_fuel(entry_key, 9);
    reveal_with_fuel(entry_cuts, 9);
    reveal_with_fuel(cuts_checked, 3);
    reveal_with_fuel(apostrophes_checked, 9);
    reveal_with_fuel(covered, 3);
    reveal_strlit("i|'d");
    reveal_strlit("i|'d|'ve");
    reveal_strlit("you|'re");
    lemma_entry_checked("i|'d"@);
    lemma_entry_checked("i|'d|'ve"@);
    lemma_entry_checked("you|'re"@);
}

#[verifier::rlimit(60)]
proof fn lemma_entries_11()
    ensures
        entry_splits("you|'ve"@),
        entry_splits("you|'ll"@),
        entry_splits("you|'d"@),
{
    reveal_with_fuel(entry_key, 8);
    reveal_with_fuel(entry_cuts, 8);
    reveal_with_fuel(cuts_checked, 2);
    reveal_with_fuel(apostrophes_checked, 8);
    reveal_with_fuel(covered, 2);
    reveal_strlit("you|'ve");
    reveal_strlit("you|'ll");
    reveal_strlit("you|'d");
    lemma_entry_checked("you|'ve"@);
    lemma_entry_checked("you|'ll"@);
    lemma_entry_checked("you|'d"@);
}

#[verifier::rlimit(60)]
proof fn lemma_entries_12()
    ensures
        entry_splits("you|'d|'ve"@),
        entry_splits("he|'s"@),
        entry_splits("he|'ll"@),
{
    reveal_with_fuel(entry_key, 11);
    reveal_with_fuel(entry_cuts, 11);
    reveal_with_fuel(cuts_checked, 3);
    reveal_with_fuel(apostrophes_checked, 11);
    reveal_with_fuel(covered, 3);
    reveal_strlit("you|'d|'ve");
    reveal_strlit("he|'s");
    reveal_strlit("he|'ll");
    lemma_entry_checked("you|'d|'ve"@);
    lemma_entry_checked("he|'s"@);
    lemma_entry_checked("he|'ll"@);
}

#[verifier::rlimit(60)]
proof fn lemma_entries_13()
    ensures
        entry_splits("he|'d"@),
        entry_splits("he|'d|'ve"@),
        entry_splits("she|'s"@),
{
    reveal_with_fuel(entry_key, 10);
    reveal_with_fuel(entry_cuts, 10);
    reveal_with_fuel(cuts_checked, 3);
    reveal_with_fuel(apostrophes_checked, 10);
    reveal_with_fuel(covered, 3);
    reveal_strlit("he|'d");
    reveal_strlit("he|'d|'ve");
    reveal_strlit("she|'s");
    lemma_entry_checked("he|'d"@);
    lemma_entry_checked("he|'d|'ve"@);
    lemma_entry_checked("she|'s"@);
}

#[verifier::rlimit(60)]
proof fn lemma_entries_14()
    ensures
        entry_splits("she|'ll"@),
        entry_splits("she|'d"@),
        entry_splits("she|'d|'ve"@),
{
    reveal_with_fuel(entry_key, 11);
    reveal_with_fuel(entry_cuts, 11);
    reveal_with_fuel(cuts_checked, 3);
    reveal_with_fuel(apostrophes_checked, 11);
    reveal_with_fuel(covered, 3);
    reveal_strlit("she|'ll");
    reveal_strlit("she|'d");
    reveal_strlit("she|'d|'ve");
    lemma_entry_checked("she|'ll"@);
    lemma_entry_checked("she|'d"@);
    lemma_entry_checked("she|'d|'ve"@);
}

#[verifier::rlimit(60)]
proof fn lemma_entries_15()
    ensures
        entry_splits("it|'s"@),
        entry_splits("it|'ll"@),
        entry_splits("it|'d"@),
{
    reveal_with_fuel(entry_key, 7);
    reveal_with_fuel(entry_cuts, 7);
    reveal_with_fuel(cuts_checked, 2);
    reveal_with_fuel(apostrophes_checked, 7);
    reveal_with_fuel(covered, 2);
    reveal_strlit("it|'s");
    reveal_strlit("it|'ll");
    reveal_strlit("it|'d");
    lemma_entry_checked("it|'s"@);
    lemma_entry_checked("it|'ll"@);
    lemma_entry_checked("it|'d"@);
}

#[verifier::rlimit(60)]
proof fn lemma_entries_16()
    ensures
        entry_splits("it|'d|'ve"@),
        entry_splits("we|'re"@),
        entry_splits("we|'ve"@),
{
    reveal_with_fuel(entry_key, 10);
    reveal_with_fuel(entry_cuts, 10);
    reveal_with_fuel(cuts_checked, 3);
    reveal_with_fuel(apostrophes_checked, 10);
    reveal_with_fuel(covered, 3);
    reveal_strlit("it|'d|'ve");
    reveal_strlit("we|'re");
    reveal_strlit("we|'ve");
    lemma_entry_checked("it|'d|'ve"@);
    lemma_entry_checked("we|'re"@);
    lemma_entry_checked("we|'ve"@);
}

#[verifier::rlimit(60)]
proof fn lemma_entries_17()
    ensures
        entry_splits("we|'ll"@),
        entry_splits("we|'d"@),
        entry_splits("we|'d|'ve"@),
{
    reveal_with_fuel(entry_key, 10);
    reveal_with_fuel(entry_cuts, 10);
    reveal_with_fuel(cuts_checked, 3);
    reveal_with_fuel(apostrophes_checked, 10);
    reveal_with_fuel(covered, 3);
    reveal_strlit("we|'ll");
    reveal_strlit("we|'d");
    reveal_strlit("we|'d|'ve");
    lemma_entry_checked("we|'ll"@);
    lemma_entry_checked("we|'d"@);
    lemma_entry_checked("we|'d|'ve"@);
}

#[verifier::rlimit(60)]
proof fn lemma_entries_18()
    ensures
        entry_splits("they|'re"@),
        entry_splits("they|'ve"@),
        entry_splits("they|'ll"@),
{
    reveal_with_fuel(entry_key, 9);
    reveal_with_fuel(entry_cuts, 9);
    reveal_with_fuel(cuts_checked, 2);
    reveal_with_fuel(apostrophes_checked, 9);
    reveal_with_fuel(covered, 2);
    reveal_strlit("they|'re");
    reveal_strlit("they|'ve");
    reveal_strlit("they|'ll");
    lemma_entry_checked("they|'re"@);
    lemma_entry_checked("they|'ve"@);
    lemma_entry_checked("they|'ll"@);
}

#[verifier::rlimit(60)]
proof fn lemma_entries_19()
    ensures
        entry_splits("they|'d"@),
        entry_splits("they|'d|'ve"@),
        entry_splits("that|'s"@),
{
    reveal_with_fuel(entry_key, 12);
    reveal_with_fuel(entry_cuts, 12);
    reveal_with_fuel(cuts_checked, 3);
    reveal_with_fuel(apostrophes_checked, 12);
    reveal_with_fuel(covered, 3);
    reveal_strlit("they|'d");
    reveal_strlit("they|'d|'ve");
    reveal_strlit("that|'s");
    lemma_entry_checked("they|'d"@);
    lemma_entry_checked("they|'d|'ve"@);
    lemma_entry_checked("that|'s"@);
}

#[verifier::rlimit(60)]
proof fn lemma_entries_20()
    ensures
        entry_splits("that|'ll"@),
        entry_splits("that|'d"@),
        entry_splits("there|'s"@),
{
    reveal_with_fuel(entry_key, 9);
    reveal_with_fuel(entry_cuts, 9);
    reveal_with_fuel(cuts_checked, 2);
    reveal_with_fuel(apostrophes_checked, 9);
    reveal_with_fuel(covered, 2);
    reveal_strlit("that|'ll");
    reveal_strlit("that|'d");
    reveal_strlit("there|'s");
    lemma_entry_checked("that|'ll"@);
    lemma_entry_checked("that|'d"@);
    lemma_entry_checked("there|'s"@);
}

#[verifier::rlimit(60)]
proof fn lemma_entries_21()
    ensures
        entry_splits("there|'ll"@),
        entry_splits("there|'d"@),
        entry_splits("there|'re"@),
{
    reveal_with_fuel(entry_key, 10);
    reveal_with_fuel(entry_cuts, 10);
    reveal_with_fuel(cuts_checked, 2);
    reveal_with_fuel(apostrophes_checked, 10);
    reveal_with_fuel(covered, 2);
    reveal_strlit("there|'ll");
    reveal_strlit("there|'d");
    reveal_strlit("there|'re");
    lemma_entry_checked("there|'ll"@);
    lemma_entry_checked("there|'d"@);
    lemma_entry_checked("there|'re"@);
}

#[verifier::rlimit(60)]
proof fn lemma_entries_22()
    ensures
        entry_splits("there|'ve"@),
        entry_splits("here|'s"@),
        entry_splits("what|'s"@),
{
    reveal_with_fuel(entry_key, 10);
    reveal_with_fuel(entry_cuts, 10);
    reveal_with_fuel(cuts_checked, 2);
    reveal_with_fuel(apostrophes_checked, 10);
    reveal_with_fuel(covered, 2);
    reveal_strlit("there|'ve");
    reveal_strlit("here|'s");
    reveal_strlit("what|'s");
    lemma_entry_checked("there|'ve"@);
    lemma_entry_checked("here|'s"@);
    lemma_entry_checked("what|'s"@);
}

#[verifier::rlimit(60)]
proof fn lemma_entries_23()
    ensures
        entry_splits("what|'re"@),
        entry_splits("what|'ll"@),
        entry_splits("what|'d"@),
{
    reveal_with_fuel(entry_key, 9);
    reveal_with_fuel(entry_cuts, 9);
    reveal_with_fuel(cuts_checked, 2);
    reveal_with_fuel(apostrophes_checked, 9);
    reveal_with_fuel(covered, 2);
    reveal_strlit("what|'re");
    reveal_strlit("what|'ll");
    reveal_strlit("what|'d");
    lemma_entry_checked("what|'re"@);
    lemma_entry_checked("what|'ll"@);
    lemma_entry_checked("what|'d"@);
}

#[verifier::rlimit(60)]
proof fn lemma_entries_24()
    ensures
        entry_splits("what|'ve"@),
        entry_splits("where|'s"@),
        entry_splits("where|'d"@),
{
    reveal_with_fuel(entry_key, 9);
    reveal_with_fuel(entry_cuts, 9);
    reveal_with_fuel(cuts_checked, 2);
    reveal_with_fuel(apostrophes_checked, 9);
    reveal_with_fuel(covered, 2);
    reveal_strlit("what|'ve");
    reveal_strlit("where|'s");
    reveal_strlit("where|'d");
    lemma_entry_checked("what|'ve"@);
    lemma_entry_checked("where|'s"@);
    lemma_entry_checked("where|'d"@);
}

#[verifier::rlimit(60)]
proof fn lemma_entries_25()
    ensures
        entry_splits("where|'ve"@),
        entry_splits("who|'s"@),
        entry_splits("who|'re"@),
{
    reveal_with_fuel(entry_key, 10);
    reveal_with_fuel(entry_cuts, 10);
    reveal_with_fuel(cuts_checked, 2);
    reveal_with_fuel(apostrophes_checked, 10);
    reveal_with_fuel(covered, 2);
    reveal_strlit("where|'ve");
    reveal_strlit("who|'s");
    reveal_strlit("who|'re");
    lemma_entry_checked("where|'ve"@);
    lemma_entry_checked("who|'s"@);
    lemma_entry_checked("who|'re"@);
}

#[verifier::rlimit(60)]
proof fn lemma_entries_26()
    ensures
        entry_splits("who|'ll"@),
        entry_splits("who|'d"@),
        entry_splits("who|'ve"@),
{
    reveal_with_fuel(entry_key, 8);
    reveal_with_fuel(entry_cuts, 8);
    reveal_with_fuel(cuts_checked, 2);
    reveal_with_fuel(apostrophes_checked, 8);
    reveal_with_fuel(covered, 2);
    reveal_strlit("who|'ll");
    reveal_strlit("who|'d");
    reveal_strlit("who|'ve");
    lemma_entry_checked("who|'ll"@);
    lemma_entry_checked("who|'d"@);
    lemma_entry_checked("who|'ve"@);
}

#[verifier::rlimit(60)]
proof fn lemma_entries_27()
    ensures
        entry_splits("why|'s"@),
        entry_splits("why|'d"@),
        entry_splits("how|'s"@),
{
    reveal_with_fuel(entry_key, 7);
    reveal_with_fuel(entry_cuts, 7);
    reveal_with_fuel(cuts_checked, 2);
    reveal_with_fuel(apostrophes_checked, 7);
    reveal_with_fuel(covered, 2);
    reveal_strlit("why|'s");
    reveal_strlit("why|'d");
    reveal_strlit("how|'s");
    lemma_entry_checked("why|'s"@);
    lemma_entry_checked("why|'d"@);
    lemma_entry_checked("how|'s"@);
}

#[verifier::rlimit(60)]
proof fn lemma_entries_28()
    ensures
        entry_splits("how|'d"@),
        entry_splits("how|'ll"@),
        entry_splits("let|'s"@),
{
    reveal_with_fuel(entry_key, 8);
    reveal_with_fuel(entry_cuts, 8);
    reveal_with_fuel(cuts_checked, 2);
    reveal_with_fuel(apostrophes_checked, 8);
    reveal_with_fuel(covered, 2);
    reveal_strlit("how|'d");
    reveal_strlit("how|'ll");
    reveal_strlit("let|'s");
    lemma_entry_checked("how|'d"@);
    lemma_entry_checked("how|'ll"@);
    lemma_entry_checked("let|'s"@);
}

#[verifier::rlimit(60)]
proof fn lemma_entries_29()
    ensures
        entry_splits("y|'all"@),
        entry_splits("should|'ve"@),
        entry_splits("could|'ve"@),
{
    reveal_with_fuel(entry_key, 11);
    reveal_with_fuel(entry_cuts, 11);
    reveal_with_fuel(cuts_checked, 2);
    reveal_with_fuel(apostrophes_checked, 11);
    reveal_with_fuel(covered, 2);
    reveal_strlit("y|'all");
    reveal_strlit("should|'ve");
    reveal_strlit("could|'ve");
    lemma_entry_checked("y|'all"@);
    lemma_entry_checked("should|'ve"@);
    lemma_entry_checked("could|'ve"@);
}

#[verifier::rlimit(60)]
proof fn lemma_entries_30()
    ensures
        entry_splits("would|'ve"@),
        entry_splits("might|'ve"@),
        entry_splits("must|'ve"@),
{
    reveal_with_fuel(entry_key, 10);
    reveal_with_fuel(entry_cuts, 10);
    reveal_with_fuel(cuts_checked, 2);
    reveal_with_fuel(apostrophes_checked, 10);
    reveal_with_fuel(covered, 2);
    reveal_strlit("would|'ve");
    reveal_strlit("might|'ve");
    reveal_strlit("must|'ve");
    lemma_entry_checked("would|'ve"@);
    lemma_entry_checked("might|'ve"@);
    lemma_entry_checked("must|'ve"@);
}

#[verifier::rlimit(60)]
proof fn lemma_entries_31()
    ensures
        entry_splits("when|'s"@),
        entry_splits("when|'d"@),
        entry_splits("this|'ll"@),
{
    reveal_with_fuel(entry_key, 9);
    reveal_with_fuel(entry_cuts, 9);
    reveal_with_fuel(cuts_checked, 2);
    reveal_with_fuel(apostrophes_checked, 9);
    reveal_with_fuel(covered, 2);
    reveal_strlit("when|'s");
    reveal_strlit("when|'d");
    reveal_strlit("this|'ll");
    lemma_entry_checked("when|'s"@);
    lemma_entry_checked("when|'d"@);
    lemma_entry_checked("this|'ll"@);
}

#[verifier::rlimit(60)]
proof fn lemma_entries_32()
    ensures
        entry_splits("these|'re"@),
        entry_splits("those|'re"@),
        entry_splits("somebody|'s"@),
{
    reveal_with_fuel(entry_key, 12);
    reveal_with_fuel(entry_cuts, 12);
    reveal_with_fuel(cuts_checked, 2);
    reveal_with_fuel(apostrophes_checked, 12);
    reveal_with_fuel(covered, 2);
    reveal_strlit("these|'re");
    reveal_strlit("those|'re");
    reveal_strlit("somebody|'s");
    lemma_entry_checked("these|'re"@);
    lemma_entry_checked("those|'re"@);
    lemma_entry_checked("somebody|'s"@);
}

/// Every contraction of the table splits: each entry has at least one split,
/// each split falls on an apostrophe or on the character just before one (the
/// `n` of `n't`), and each apostrophe opens a piece or is the second character
/// of one.
pub proof fn law_table_splits_at_apostrophes()
    ensures
        forall|j: int| 0 <= j < contraction_table().len() ==> #[trigger] entry_splits(
            contraction_table()[j],
        ),
{
    lemma_entries_0();
    lemma_entries_1();
    lemma_entries_2();
    lemma_entries_3();
    lemma_entries_4();
    lemma_entries_5();
    lemma_entries_6();
    lemma_entries_7();
    lemma_entries_8();
    lemma_entries_9();
    lemma_entries_10();
    lemma_entries_11();
    lemma_entries_12();
    lemma_entries_13();
    lemma_entries_14();
    lemma_entries_15();
    lemma_entries_16();
    lemma_entries_17();
    lemma_entries_18();
    lemma_entries_19();
    lemma_entries_20();
    lemma_entries_21();
    lemma_entries_22();
    lemma_entries_23();
    lemma_entries_24();
    lemma_entries_25();
    lemma_entries_26();
    lemma_entries_27();
    lemma_entries_28();
    lemma_entries_29();
    lemma_entries_30();
    lemma_entries_31();
    lemma_entries_32();
    let t = contraction_table();
    assert(t.len() == 99);
}

/// Case changes keep apostrophes where they are and make none.
proof fn lemma_upper_apostrophe(c: char)
    ensures
        ascii_upper(c) == '\'' <==> c == '\'',
{
    if 'a' <= c && c <= 'z' {
        let n = (c as u32) - 32;
        assert(65 <= n <= 90);
        assert(ascii_upper(c) == n as char);
        assert((n as char) as u32 == n);
    }
}


/// Where the table gives `word` its splits, they are those of an entry whose
/// text `word` matches.
proof fn lemma_lookup_entry(word: Seq<char>, table: Seq<Seq<char>>)
    requires
        lookup_cuts(word, table) is Some,
    ensures
        exists|j: int|
            0 <= j < table.len() && key_matches(word, entry_key(#[trigger] table[j]))
                && lookup_cuts(word, table) == Some(entry_cuts(table[j])),
    decreases table.len(),
{
    if key_matches(word, entry_key(table[0])) {
        assert(0 <= 0 < table.len() && key_matches(word, entry_key(table[0])));
    } else {
        let rest = table.drop_first();
        lemma_lookup_entry(word, rest);
        let j = choose|j: int|
            0 <= j < rest.len() && key_matches(word, entry_key(#[trigger] rest[j]))
                && lookup_cuts(word, rest) == Some(entry_cuts(rest[j]));
        assert(table[j + 1] == rest[j]);
    }
}

/// A word that matches a key in some case has its apostrophes where the key has them.
proof fn lemma_match_apostrophes(word: Seq<char>, key: Seq<char>)
    requires
        key_matches(word, key),
    ensures
        word.len() == key.len(),
        forall|i: int| 0 <= i < word.len() ==> (#[trigger] word[i] == '\'' <==> key[i] == '\''),
{
    assert forall|i: int| 0 <= i < word.len() implies (#[trigger] word[i] == '\'' <==> key[i] == '\'') by {
        lemma_upper_apostrophe(key[i]);
        if word == upper_case(key) {
            assert(word[i] == ascii_upper(key[i]));
        } else if word == title_case(key) && word != key {
            if i == 0 {
                assert(word[i] == ascii_upper(key[i]));
            } else {
                assert(word[i] == key[i]);
            }
        }
    }
}

/// A word that the table matches splits into at least two parts, and its
/// splits fall where the apostrophes are: each on an apostrophe or on the
/// character just before one (the `n` of `n't`), with each apostrophe
/// opening a part or being the second character of one.
pub proof fn law_contractions_split(word: Seq<char>)
    requires
        contraction_cuts(word) is Some,
    ensures
        splits_at_apostrophes(word, contraction_cuts(word).unwrap()),
        word_parts(word) == cut_pieces(word, contraction_cuts(word).unwrap()),
        word_parts(word).len() >= 2,
{
    let t = contraction_table();
    lemma_lookup_entry(word, t);
    let j = choose|j: int|
        0 <= j < t.len() && key_matches(word, entry_key(#[trigger] t[j]))
            && lookup_cuts(word, t) == Some(entry_cuts(t[j]));
    law_table_splits_at_apostrophes();
    assert(entry_splits(t[j]));
    let key = entry_key(t[j]);
    let cuts = entry_cuts(t[j]);
    lemma_match_apostrophes(word, key);
    assert forall|k: int| 0 <= k < cuts.len() implies apostrophe_at_or_after(word, #[trigger] cuts[k] as int) by {
        assert(apostrophe_at_or_after(key, cuts[k] as int));
        let p = cuts[k] as int;
        if 0 <= p < key.len() && key[p] == '\'' {
            assert(word[p] == '\'');
        } else {
            assert(word[p + 1] == '\'');
        }
    }
    assert forall|i: int| 0 <= i < word.len() && #[trigger] word[i] == '\'' implies exists|k: int|
        0 <= k < cuts.len() && (#[trigger] cuts[k] == i || cuts[k] + 1 == i) by {
        assert(key[i] == '\'');
    }
}

} // verus!
