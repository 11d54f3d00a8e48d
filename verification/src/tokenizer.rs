//! The tokenizer: applying the rules in order, recursing on the text between
//! matches, and the state that configuration, added rules and fingerprints keep.

use vstd::prelude::*;
use vstd::utf8::encode_utf8;
use crate::contractions::{contains_apostrophe, manage_contraction, word_parts};
use crate::matcher::{Pattern, regex_find_all, regex_find_spans, spans_well_formed};
use crate::patterns::{Rule, RuleView, master, master_rules, rule_views};
use crate::tags;
use crate::text::{
    byte_range, bytes_between, concat, lemma_bytes_between_add, lemma_bytes_between_all,
    lemma_concat_add, lemma_concat_push, lemma_ends_are_boundaries, lemma_split_white_space_strip,
    lemma_strip_add, slice_bytes, split_on_white_space, split_white_space, str_equal,
    strip_white_space, trim, trim_str,
};
use crate::token::{AddError, Token, TokenView, token_values, token_views};
use vstd::string::StringExecFns;

verus! {

// ---------------------------------------------------------------------------
// What one rule does to a text
// ---------------------------------------------------------------------------

/// A unit as plain values: a token's text and tag, or a fragment's text.
pub enum UnitView {
    Token(Seq<char>, Seq<char>),
    Fragment(Seq<char>),
}

/// The text that a unit stands for.
pub open spec fn unit_text(u: UnitView) -> Seq<char> {
    match u {
        UnitView::Token(v, _) => v,
        UnitView::Fragment(f) => f,
    }
}

/// The texts of a sequence of units.
pub open spec fn unit_texts(us: Seq<UnitView>) -> Seq<Seq<char>> {
    us.map_values(|u: UnitView| unit_text(u))
}

/// The unit for the text between two matches: the text trimmed, as a fragment,
/// when anything is left of it.
pub open spec fn gap_units(gap: Seq<char>) -> Seq<UnitView> {
    if trim(gap).len() == 0 {
        Seq::empty()
    } else {
        seq![UnitView::Fragment(trim(gap))]
    }
}

/// The units for one match of a rule with this category: one token with the
/// category, or, for a word that holds an apostrophe, a word token for each
/// part of it.
pub open spec fn match_units(category: Seq<char>, m: Seq<char>) -> Seq<UnitView> {
    if category == tags::WORD@ && m.contains('\'') {
        word_parts(m).map_values(|p: Seq<char>| UnitView::Token(p, tags::WORD@))
    } else {
        seq![UnitView::Token(m, category)]
    }
}

/// The byte offset at which the `k`th match ends; 0 before the first.
pub open spec fn match_end(spans: Seq<(usize, usize)>, k: int) -> int {
    if k <= 0 {
        0
    } else {
        spans[k - 1].1 as int
    }
}

/// The units of the first `k` matches and the gaps before them.
pub open spec fn units_upto(
    text: Seq<char>,
    category: Seq<char>,
    spans: Seq<(usize, usize)>,
    k: nat,
) -> Seq<UnitView>
    decreases k,
{
    if k == 0 {
        Seq::empty()
    } else {
        let j = (k - 1) as nat;
        units_upto(text, category, spans, j) + gap_units(
            bytes_between(text, match_end(spans, j as int), spans[j as int].0 as int),
        ) + match_units(
            category,
            bytes_between(text, spans[j as int].0 as int, spans[j as int].1 as int),
        )
    }
}

/// The units that the matches `spans` of a rule with this category make of a
/// text: for each match, the gap before it and the match itself, then the gap
/// after the last match.
pub open spec fn units_of_matches(
    text: Seq<char>,
    category: Seq<char>,
    spans: Seq<(usize, usize)>,
) -> Seq<UnitView> {
    units_upto(text, category, spans, spans.len()) + gap_units(
        bytes_between(text, match_end(spans, spans.len() as int), encode_utf8(text).len() as int),
    )
}

/// The units that a rule makes of a text, by the matches of its pattern.
pub open spec fn rule_units(rule: RuleView, text: Seq<char>) -> Seq<UnitView> {
    units_of_matches(text, rule.1, regex_find_all(rule.0, text))
}

// ---------------------------------------------------------------------------
// What a list of rules does to a text
// ---------------------------------------------------------------------------

/// The tokens of `text` under `rules`. With no rules left, the text splits on
/// white space and every piece is tagged `alien`. Otherwise the first rule is
/// applied to the trimmed text, its tokens are kept, and each fragment is
/// tokenized with the remaining rules.
pub open spec fn tokenize_spec(rules: Seq<RuleView>, text: Seq<char>) -> Seq<TokenView>
    decreases rules.len(), 0nat,
{
    if rules.len() == 0 {
        alien_tokens(split_white_space(text))
    } else {
        units_tokens(rules.drop_first(), rule_units(rules[0], trim(text)))
    }
}

/// The tokens of a sequence of units, each fragment tokenized with `rules`.
pub open spec fn units_tokens(rules: Seq<RuleView>, units: Seq<UnitView>) -> Seq<TokenView>
    decreases rules.len(), units.len(),
{
    if units.len() == 0 {
        Seq::empty()
    } else {
        units_tokens(rules, units.drop_last()) + match units.last() {
            UnitView::Token(v, c) => seq![(v, c)],
            UnitView::Fragment(f) => tokenize_spec(rules, f),
        }
    }
}

/// Each piece tagged `alien`.
pub open spec fn alien_tokens(pieces: Seq<Seq<char>>) -> Seq<TokenView> {
    pieces.map_values(|p: Seq<char>| (p, tags::ALIEN@))
}

// ---------------------------------------------------------------------------
// Units in code
// ---------------------------------------------------------------------------

/// One result of applying a rule: a finished token, or a fragment of text that
/// the remaining rules still have to tokenize.
pub enum Unit {
    /// A finished token.
    Token(Token),
    /// A text fragment to recurse on.
    Fragment(String),
}

impl View for Unit {
    type V = UnitView;

    open spec fn view(&self) -> UnitView {
        match self {
            Unit::Token(t) => UnitView::Token(t.value@, t.tag@),
            Unit::Fragment(f) => UnitView::Fragment(f@),
        }
    }
}

/// The views of a sequence of units.
pub open spec fn unit_views(us: Seq<Unit>) -> Seq<UnitView> {
    us.map_values(|u: Unit| u@)
}

proof fn lemma_unit_texts_add(a: Seq<UnitView>, b: Seq<UnitView>)
    ensures
        concat(unit_texts(a + b)) == concat(unit_texts(a)) + concat(unit_texts(b)),
{
    assert(unit_texts(a + b) =~= unit_texts(a) + unit_texts(b));
    lemma_concat_add(unit_texts(a), unit_texts(b));
}

proof fn lemma_strip3(a: Seq<char>, b: Seq<char>, c: Seq<char>)
    ensures
        strip_white_space(a + b + c) == strip_white_space(a) + strip_white_space(b)
            + strip_white_space(c),
{
    lemma_strip_add(a + b, c);
    lemma_strip_add(a, b);
}

/// Pushes the unit for the text between two matches.
fn push_gap(units: &mut Vec<Unit>, gap: &str)
    ensures
        unit_views(final(units)@) == unit_views(old(units)@) + gap_units(gap@),
        strip_white_space(concat(unit_texts(gap_units(gap@)))) == strip_white_space(gap@),
{
    let trimmed = trim_str(gap);
    let ghost before = unit_views(units@);
    if !trimmed.is_empty() {
        let u = Unit::Fragment(String::from_str(trimmed));
        units.push(u);
        proof {
            assert(unit_views(units@) =~= before.push(u@));
            assert(before.push(u@) =~= before + gap_units(gap@));
            let us = gap_units(gap@);
            assert(unit_texts(us) =~= Seq::<Seq<char>>::empty().push(trimmed@));
            lemma_concat_push(Seq::empty(), trimmed@);
            assert(Seq::<char>::empty() + trimmed@ =~= trimmed@);
        }
    } else {
        proof {
            assert(unit_views(units@) =~= before + gap_units(gap@));
            assert(unit_texts(gap_units(gap@)) =~= Seq::<Seq<char>>::empty());
            assert(strip_white_space(trimmed@) =~= Seq::<char>::empty());
        }
    }
}

/// Pushes the units for one match.
fn push_match(units: &mut Vec<Unit>, m: &str, category: &str, is_word: bool)
    requires
        is_word == (category@ == tags::WORD@),
    ensures
        unit_views(final(units)@) == unit_views(old(units)@) + match_units(category@, m@),
        concat(unit_texts(match_units(category@, m@))) == m@,
{
    let ghost before = unit_views(units@);
    if is_word && contains_apostrophe(m) {
        let parts = manage_contraction(m);
        let ghost pv = parts@.map_values(|p: String| p@);
        let mut i: usize = 0;
        while i < parts.len()
            invariant
                i <= parts@.len(),
                pv == parts@.map_values(|p: String| p@),
                pv == word_parts(m@),
                unit_views(units@) == before + pv.take(i as int).map_values(
                    |p: Seq<char>| UnitView::Token(p, tags::WORD@),
                ),
            decreases parts@.len() - i,
        {
            let u = Unit::Token(Token::new(parts[i].as_str(), tags::WORD));
            let ghost prev = unit_views(units@);
            units.push(u);
            proof {
                assert(unit_views(units@) =~= prev.push(u@));
                assert(pv.take(i + 1).map_values(|p: Seq<char>| UnitView::Token(p, tags::WORD@))
                    =~= pv.take(i as int).map_values(
                    |p: Seq<char>| UnitView::Token(p, tags::WORD@),
                ).push(u@));
            }
            i = i + 1;
        }
        proof {
            assert(pv.take(i as int) =~= pv);
            assert(unit_texts(match_units(category@, m@)) =~= word_parts(m@));
        }
    } else {
        let u = Unit::Token(Token::new(m, category));
        units.push(u);
        proof {
            assert(unit_views(units@) =~= before.push(u@));
            assert(before.push(u@) =~= before + match_units(category@, m@));
            assert(unit_texts(match_units(category@, m@)) =~= Seq::<Seq<char>>::empty().push(m@));
            lemma_concat_push(Seq::empty(), m@);
            assert(Seq::<char>::empty() + m@ =~= m@);
        }
    }
}

/// Applies one rule to `text`. Matches become tokens. The gaps between them
/// become fragments to recurse on. Word matches that contain an apostrophe go
/// through contraction handling.
fn tokenize_unit(text: &str, rule: &Rule) -> (units: Vec<Unit>)
    ensures
        unit_views(units@) == rule_units(rule@, text@),
        strip_white_space(concat(unit_texts(unit_views(units@)))) == strip_white_space(text@),
{
    let spans = regex_find_spans(rule.pattern.as_str(), text);
    apply_matches(text, rule.category.as_str(), &spans)
}

/// The units that the matches `spans` of a rule with this category make of
/// `text`: for each match the trimmed gap before it, when not empty, as a
/// fragment, and the match as a token (a word with an apostrophe as its
/// parts); then the trimmed text after the last match.
pub fn apply_matches(text: &str, category: &str, spans: &Vec<(usize, usize)>) -> (units: Vec<Unit>)
    requires
        spans_well_formed(spans@, text@),
    ensures
        unit_views(units@) == units_of_matches(text@, category@, spans@),
        strip_white_space(concat(unit_texts(unit_views(units@)))) == strip_white_space(text@),
{
    let ghost t = text@;
    let is_word = str_equal(category, tags::WORD);
    let mut units: Vec<Unit> = Vec::new();
    let mut last: usize = 0;
    let mut k: usize = 0;
    proof {
        lemma_ends_are_boundaries(t);
        assert(unit_views(units@) =~= units_upto(t, category@, spans@, 0));
        assert(encode_utf8(t).subrange(0, 0) =~= Seq::<u8>::empty());
        assert(unit_texts(unit_views(units@)) =~= Seq::<Seq<char>>::empty());
        assert(bytes_between(t, 0, 0) =~= Seq::<char>::empty()) by {
            vstd::utf8::encode_utf8_decode_utf8(Seq::<char>::empty());
            assert(encode_utf8(Seq::<char>::empty()) =~= Seq::<u8>::empty());
        }
    }
    while k < spans.len()
        invariant
            k <= spans@.len(),
            t == text@,
            spans_well_formed(spans@, t),
            is_word == (category@ == tags::WORD@),
            last == match_end(spans@, k as int),
            byte_range(t, 0, last as int),
            byte_range(t, last as int, encode_utf8(t).len() as int),
            unit_views(units@) == units_upto(t, category@, spans@, k as nat),
            strip_white_space(concat(unit_texts(unit_views(units@)))) == strip_white_space(
                bytes_between(t, 0, last as int),
            ),
        decreases spans@.len() - k,
    {
        let (s, e) = spans[k];
        proof {
            assert(byte_range(t, spans@[k as int].0 as int, spans@[k as int].1 as int));
            if k > 0 {
                assert(spans@[k - 1].1 <= spans@[k as int].0);
            }
            lemma_ends_are_boundaries(t);
        }
        let ghost old_units = unit_views(units@);
        let gap = slice_bytes(text, last, s);
        push_gap(&mut units, gap);
        let m = slice_bytes(text, s, e);
        push_match(&mut units, m, category, is_word);
        proof {
            let g = gap_units(gap@);
            let mu = match_units(category@, m@);
            assert(unit_views(units@) == old_units + g + mu);
            lemma_unit_texts_add(old_units + g, mu);
            lemma_unit_texts_add(old_units, g);
            lemma_strip3(
                concat(unit_texts(old_units)),
                concat(unit_texts(g)),
                concat(unit_texts(mu)),
            );
            lemma_bytes_between_add(t, 0, last as int, s as int);
            lemma_bytes_between_add(t, 0, s as int, e as int);
            lemma_strip3(bytes_between(t, 0, last as int), gap@, m@);
        }
        last = e;
        k = k + 1;
    }
    let n = text.as_bytes().len();
    let tail = slice_bytes(text, last, n);
    let ghost old_units = unit_views(units@);
    push_gap(&mut units, tail);
    proof {
        let g = gap_units(tail@);
        lemma_unit_texts_add(old_units, g);
        lemma_strip_add(concat(unit_texts(old_units)), concat(unit_texts(g)));
        lemma_bytes_between_add(t, 0, last as int, encode_utf8(t).len() as int);
        lemma_strip_add(bytes_between(t, 0, last as int), tail@);
        lemma_bytes_between_all(t);
    }
    units
}

// ---------------------------------------------------------------------------
// The recursion
// ---------------------------------------------------------------------------

proof fn lemma_token_values_add(a: Seq<TokenView>, b: Seq<TokenView>)
    ensures
        concat(token_values(a + b)) == concat(token_values(a)) + concat(token_values(b)),
{
    assert(token_values(a + b) =~= token_values(a) + token_values(b));
    lemma_concat_add(token_values(a), token_values(b));
}

/// Tokenizes `text` with the rules from index `from` on, appending the tokens to
/// `out`. Each level applies the first rule, emits its matches as final tokens,
/// and recurses on the gaps with the rest of the rules. With no rules left, it
/// splits on white space and tags every piece `alien`.
fn tokenize_recursive(out: &mut Vec<Token>, text: &str, rules: &Vec<Rule>, from: usize)
    requires
        from <= rules@.len(),
    ensures
        token_views(final(out)@) == token_views(old(out)@) + tokenize_spec(
            rule_views(rules@).skip(from as int),
            text@,
        ),
        strip_white_space(
            concat(token_values(tokenize_spec(rule_views(rules@).skip(from as int), text@))),
        ) == strip_white_space(text@),
    decreases rules@.len() - from,
{
    let ghost rs = rule_views(rules@).skip(from as int);
    let ghost start = token_views(out@);
    let nrules = rules.len();
    if from == nrules {
        assert(rs =~= Seq::<RuleView>::empty());
        let pieces = split_on_white_space(text);
        let ghost pv = pieces@.map_values(|p: String| p@);
        let mut i: usize = 0;
        while i < pieces.len()
            invariant
                i <= pieces@.len(),
                pv == pieces@.map_values(|p: String| p@),
                pv == split_white_space(text@),
                token_views(out@) == start + alien_tokens(pv.take(i as int)),
            decreases pieces@.len() - i,
        {
            let tok = Token::new(pieces[i].as_str(), tags::ALIEN);
            let ghost prev = token_views(out@);
            out.push(tok);
            proof {
                assert(token_views(out@) =~= prev.push(tok@));
                assert(alien_tokens(pv.take(i + 1)) =~= alien_tokens(pv.take(i as int)).push(
                    tok@,
                ));
            }
            i = i + 1;
        }
        proof {
            assert(pv.take(i as int) =~= pv);
            assert(token_values(alien_tokens(pv)) =~= pv);
            lemma_split_white_space_strip(text@);
        }
    } else {
        let sentence = trim_str(text);
        let units = tokenize_unit(sentence, &rules[from]);
        let ghost uv = unit_views(units@);
        let ghost rest = rs.drop_first();
        proof {
            assert(rs[0] == rules@[from as int]@);
            assert(rest =~= rule_views(rules@).skip(from + 1));
            assert(units_tokens(rest, uv.take(0)) =~= Seq::<TokenView>::empty()) by {
                assert(uv.take(0) =~= Seq::<UnitView>::empty());
            }
            assert(token_views(out@) =~= start + Seq::<TokenView>::empty());
            assert(unit_texts(uv.take(0)) =~= Seq::<Seq<char>>::empty());
            assert(token_values(Seq::<TokenView>::empty()) =~= Seq::<Seq<char>>::empty());
        }
        let mut i: usize = 0;
        while i < units.len()
            invariant
                i <= units@.len(),
                from < nrules,
                nrules == rules@.len(),
                uv == unit_views(units@),
                rest == rule_views(rules@).skip(from + 1),
                token_views(out@) == start + units_tokens(rest, uv.take(i as int)),
                strip_white_space(concat(token_values(units_tokens(rest, uv.take(i as int)))))
                    == strip_white_space(concat(unit_texts(uv.take(i as int)))),
            decreases units@.len() - i,
        {
            let ghost prev = token_views(out@);
            let ghost u = uv[i as int];
            proof {
                assert(uv.take(i + 1).drop_last() =~= uv.take(i as int));
                assert(uv.take(i + 1).last() == u);
                assert(unit_texts(uv.take(i + 1)) =~= unit_texts(uv.take(i as int)).push(
                    unit_text(u),
                ));
                lemma_concat_push(unit_texts(uv.take(i as int)), unit_text(u));
            }
            match &units[i] {
                Unit::Token(t) => {
                    let c = t.copy();
                    out.push(c);
                    proof {
                        assert(token_views(out@) =~= prev.push(c@));
                        assert(units_tokens(rest, uv.take(i + 1)) == units_tokens(
                            rest,
                            uv.take(i as int),
                        ) + seq![c@]);
                        assert(prev.push(c@) =~= prev + seq![c@]);
                        lemma_token_values_add(units_tokens(rest, uv.take(i as int)), seq![c@]);
                        assert(token_values(seq![c@]) =~= Seq::<Seq<char>>::empty().push(c@.0));
                        lemma_concat_push(Seq::empty(), c@.0);
                        assert(Seq::<char>::empty() + c@.0 =~= c@.0);
                    }
                },
                Unit::Fragment(f) => {
                    tokenize_recursive(out, f.as_str(), rules, from + 1);
                    proof {
                        assert(units_tokens(rest, uv.take(i + 1)) == units_tokens(
                            rest,
                            uv.take(i as int),
                        ) + tokenize_spec(rest, f@));
                        lemma_token_values_add(
                            units_tokens(rest, uv.take(i as int)),
                            tokenize_spec(rest, f@),
                        );
                    }
                },
            }
            proof {
                let a = concat(token_values(units_tokens(rest, uv.take(i as int))));
                let b = concat(unit_texts(uv.take(i as int)));
                lemma_strip_add(a, unit_text(u));
                lemma_strip_add(b, unit_text(u));
                let extra = match u {
                    UnitView::Token(v, cat) => seq![(v, cat)],
                    UnitView::Fragment(f) => tokenize_spec(rest, f),
                };
                lemma_strip_add(a, concat(token_values(extra)));
            }
            i = i + 1;
        }
        proof {
            assert(uv.take(i as int) =~= uv);
            assert(tokenize_spec(rs, text@) == units_tokens(rest, rule_units(rs[0], trim(text@))));
        }
    }
}

// ---------------------------------------------------------------------------
// Fingerprint codes
// ---------------------------------------------------------------------------

/// A fingerprint code entry as plain values: the tag and its code.
pub type CodeView = (Seq<char>, Seq<char>);

/// The views of a sequence of code entries.
pub open spec fn code_views(codes: Seq<(String, String)>) -> Seq<CodeView> {
    codes.map_values(|p: (String, String)| (p.0@, p.1@))
}

/// The default fingerprint codes. `punctuation` and `symbol` have no code, so
/// their tokens contribute their text to a fingerprint.
pub open spec fn default_codes() -> Seq<CodeView> {
    seq![
        (tags::EMOTICON@, "c"@),
        (tags::EMAIL@, "e"@),
        (tags::EMOJI@, "j"@),
        (tags::HASHTAG@, "h"@),
        (tags::MENTION@, "m"@),
        (tags::NUMBER@, "n"@),
        (tags::ORDINAL@, "o"@),
        (tags::QUOTED_PHRASE@, "q"@),
        (tags::CURRENCY@, "r"@),
        (tags::TIME@, "t"@),
        (tags::URL@, "u"@),
        (tags::WORD@, "w"@),
        (tags::ALIEN@, "z"@),
    ]
}

/// The default fingerprint codes, one entry per tag.
pub fn default_fingerprint_codes() -> (codes: Vec<(String, String)>)
    ensures
        code_views(codes@) == default_codes(),
{
    let codes = vec![
        (String::from_str(tags::EMOTICON), String::from_str("c")),
        (String::from_str(tags::EMAIL), String::from_str("e")),
        (String::from_str(tags::EMOJI), String::from_str("j")),
        (String::from_str(tags::HASHTAG), String::from_str("h")),
        (String::from_str(tags::MENTION), String::from_str("m")),
        (String::from_str(tags::NUMBER), String::from_str("n")),
        (String::from_str(tags::ORDINAL), String::from_str("o")),
        (String::from_str(tags::QUOTED_PHRASE), String::from_str("q")),
        (String::from_str(tags::CURRENCY), String::from_str("r")),
        (String::from_str(tags::TIME), String::from_str("t")),
        (String::from_str(tags::URL), String::from_str("u")),
        (String::from_str(tags::WORD), String::from_str("w")),
        (String::from_str(tags::ALIEN), String::from_str("z")),
    ];
    assert(code_views(codes@) =~= default_codes());
    codes
}

/// The code of `tag`: that of its latest entry.
pub open spec fn code_of(codes: Seq<CodeView>, tag: Seq<char>) -> Option<Seq<char>>
    decreases codes.len(),
{
    if codes.len() == 0 {
        None
    } else if codes.last().0 == tag {
        Some(codes.last().1)
    } else {
        code_of(codes.drop_last(), tag)
    }
}

/// Whether no usable fingerprint code is given: none at all, or an empty one.
pub open spec fn code_missing(code: Option<&str>) -> bool {
    match code {
        None => true,
        Some(c) => c@.len() == 0,
    }
}

/// Whether `tag` has a non-empty fingerprint code.
pub open spec fn has_code(codes: Seq<CodeView>, tag: Seq<char>) -> bool {
    code_of(codes, tag) is Some && code_of(codes, tag).unwrap().len() > 0
}

/// What a token contributes to a fingerprint: its tag's code, or its own text
/// when the tag has no non-empty code.
pub open spec fn token_mark(codes: Seq<CodeView>, t: TokenView) -> Seq<char> {
    if has_code(codes, t.1) {
        code_of(codes, t.1).unwrap()
    } else {
        t.0
    }
}

/// The fingerprint of a sequence of tokens.
pub open spec fn fingerprint(codes: Seq<CodeView>, tokens: Seq<TokenView>) -> Seq<char> {
    concat(tokens.map_values(|t: TokenView| token_mark(codes, t)))
}

/// The codes after `add_tag(name, code)`: the new entry is added when the tag
/// has no code yet and the code is not empty.
pub open spec fn codes_after_add_tag(
    codes: Seq<CodeView>,
    name: Seq<char>,
    code: Seq<char>,
) -> Seq<CodeView> {
    if !has_code(codes, name) && code.len() > 0 {
        codes.push((name, code))
    } else {
        codes
    }
}

/// The categories of a sequence of rules.
pub open spec fn categories(rules: Seq<RuleView>) -> Seq<Seq<char>> {
    rules.map_values(|r: RuleView| r.1)
}

/// Whether `tag` is the category of a built-in rule.
pub open spec fn built_in_category(tag: Seq<char>) -> bool {
    categories(master_rules()).contains(tag)
}

/// The code entry of `tag`, the latest one.
fn find_code<'a>(codes: &'a Vec<(String, String)>, tag: &str) -> (r: Option<&'a String>)
    ensures
        r matches Some(c) ==> code_of(code_views(codes@), tag@) == Some(c@),
        r is None ==> code_of(code_views(codes@), tag@) is None,
{
    let ghost cv = code_views(codes@);
    let mut i: usize = codes.len();
    assert(cv.take(i as int) =~= cv);
    while i > 0
        invariant
            i <= codes@.len(),
            cv == code_views(codes@),
            code_of(cv, tag@) == code_of(cv.take(i as int), tag@),
        decreases i,
    {
        let entry = &codes[i - 1];
        let ghost pre = cv.take(i as int);
        assert(pre.last() == (entry.0@, entry.1@));
        assert(pre.drop_last() =~= cv.take(i - 1));
        if str_equal(entry.0.as_str(), tag) {
            return Some(&entry.1);
        }
        i = i - 1;
    }
    None
}

/// Whether `tag` has a non-empty code.
fn tag_has_code(codes: &Vec<(String, String)>, tag: &str) -> (b: bool)
    ensures
        b == has_code(code_views(codes@), tag@),
{
    match find_code(codes, tag) {
        Some(c) => !c.as_str().is_empty(),
        None => false,
    }
}

/// Whether `tag` is the category of a built-in rule.
fn is_built_in_category(tag: &str) -> (b: bool)
    ensures
        b == built_in_category(tag@),
{
    let all = master();
    let ghost cats = categories(master_rules());
    let mut i: usize = 0;
    while i < all.len()
        invariant
            i <= all@.len(),
            rule_views(all@) == master_rules(),
            cats == categories(master_rules()),
            forall|m: int| 0 <= m < i ==> cats[m] != tag@,
        decreases all@.len() - i,
    {
        assert(cats[i as int] == all@[i as int]@.1);
        if str_equal(all[i].category.as_str(), tag) {
            return true;
        }
        i = i + 1;
    }
    false
}

// ---------------------------------------------------------------------------
// Configuration
// ---------------------------------------------------------------------------

/// A configuration as plain values.
pub open spec fn config_view(config: Seq<(&str, bool)>) -> Seq<(Seq<char>, bool)> {
    config.map_values(|e: (&str, bool)| (e.0@, e.1))
}

/// The flag that a configuration gives a category: the latest one listed.
pub open spec fn config_flag(config: Seq<(Seq<char>, bool)>, category: Seq<char>) -> Option<bool>
    decreases config.len(),
{
    if config.len() == 0 {
        None
    } else if config.last().0 == category {
        Some(config.last().1)
    } else {
        config_flag(config.drop_last(), category)
    }
}

/// Listed categories follow their flag; absent ones stay on.
pub open spec fn category_enabled(config: Seq<(Seq<char>, bool)>, category: Seq<char>) -> bool {
    match config_flag(config, category) {
        Some(flag) => flag,
        None => true,
    }
}

/// The rules whose category the configuration enables, in order.
pub open spec fn select_rules(rules: Seq<RuleView>, config: Seq<(Seq<char>, bool)>) -> Seq<
    RuleView,
>
    decreases rules.len(),
{
    if rules.len() == 0 {
        rules
    } else {
        let kept = select_rules(rules.drop_last(), config);
        if category_enabled(config, rules.last().1) {
            kept.push(rules.last())
        } else {
            kept
        }
    }
}

/// The active rules after `define_config(config)`: none for an empty
/// configuration, otherwise the enabled built-in rules.
pub open spec fn configured_rules(config: Seq<(Seq<char>, bool)>) -> Seq<RuleView> {
    if config.len() == 0 {
        Seq::empty()
    } else {
        select_rules(master_rules(), config)
    }
}

/// Whether the configuration enables `category`.
fn enabled(config: &[(&str, bool)], category: &str) -> (b: bool)
    ensures
        b == category_enabled(config_view(config@), category@),
{
    let ghost cv = config_view(config@);
    let mut i: usize = config.len();
    assert(cv.take(i as int) =~= cv);
    while i > 0
        invariant
            i <= config@.len(),
            cv == config_view(config@),
            config_flag(cv, category@) == config_flag(cv.take(i as int), category@),
        decreases i,
    {
        let (name, flag) = config[i - 1];
        let ghost pre = cv.take(i as int);
        assert(pre.last() == (name@, flag));
        assert(pre.drop_last() =~= cv.take(i - 1));
        if str_equal(name, category) {
            return flag;
        }
        i = i - 1;
    }
    true
}

/// The number of distinct categories of `rules`.
fn count_categories(rules: &Vec<Rule>) -> (n: usize)
    ensures
        n == categories(rule_views(rules@)).to_set().len(),
{
    let ghost cats = categories(rule_views(rules@));
    let mut unique: Vec<String> = Vec::new();
    let mut i: usize = 0;
    proof {
        assert(unique@.map_values(|u: String| u@) =~= Seq::<Seq<char>>::empty());
        assert(cats.take(0) =~= Seq::<Seq<char>>::empty());
    }
    while i < rules.len()
        invariant
            i <= rules@.len(),
            cats == categories(rule_views(rules@)),
            unique@.map_values(|u: String| u@).no_duplicates(),
            unique@.map_values(|u: String| u@).to_set() == cats.take(i as int).to_set(),
            unique@.len() <= i,
        decreases rules@.len() - i,
    {
        let cat = rules[i].category.as_str();
        let ghost uv = unique@.map_values(|u: String| u@);
        let mut j: usize = 0;
        let mut seen = false;
        while j < unique.len()
            invariant
                j <= unique@.len(),
                uv == unique@.map_values(|u: String| u@),
                seen == (exists|m: int| 0 <= m < j && uv[m] == cat@),
            decreases unique@.len() - j,
        {
            let eq = str_equal(unique[j].as_str(), cat);
            proof {
                assert(uv[j as int] == unique@[j as int]@);
                if eq {
                    assert(uv[j as int] == cat@);
                } else {
                    assert forall|m: int| 0 <= m < j + 1 && uv[m] == cat@ implies 0 <= m < j by {
                        if m == j {
                            assert(uv[j as int] != cat@);
                        }
                    }
                }
            }
            if eq {
                seen = true;
            }
            j = j + 1;
        }
        proof {
            assert(cats[i as int] == cat@);
            assert(cats.take(i + 1) =~= cats.take(i as int).push(cat@));
            cats.take(i as int).lemma_push_to_set_commute(cat@);
            if seen {
                let m = choose|m: int| 0 <= m < j && uv[m] == cat@;
                assert(uv.to_set().contains(uv[m]));
                assert(cats.take(i as int).to_set().insert(cat@) =~= cats.take(
                    i as int,
                ).to_set());
            }
        }
        if !seen {
            let c = String::from_str(cat);
            unique.push(c);
            proof {
                assert(unique@.map_values(|u: String| u@) =~= uv.push(cat@));
                uv.lemma_push_to_set_commute(cat@);
                assert(!uv.contains(cat@));
            }
        }
        i = i + 1;
    }
    proof {
        assert(cats.take(i as int) =~= cats);
        unique@.map_values(|u: String| u@).unique_seq_to_set();
    }
    unique.len()
}

// ---------------------------------------------------------------------------
// The tokenizer
// ---------------------------------------------------------------------------

/// A regex tokenizer instance.
///
/// Each instance holds its own rule list, fingerprint codes, and the result of
/// the last tokenize call. Create one with [`Tokenizer::new`].
#[derive(Debug)]
pub struct Tokenizer {
    rgxs: Vec<Rule>,
    final_tokens: Vec<Token>,
    fingerprint_codes: Vec<(String, String)>,
}

impl Tokenizer {
    /// The active rules, in the order they are tried.
    pub closed spec fn rules(&self) -> Seq<RuleView> {
        rule_views(self.rgxs@)
    }

    /// The fingerprint code entries.
    pub closed spec fn codes(&self) -> Seq<CodeView> {
        code_views(self.fingerprint_codes@)
    }

    /// The tokens of the last tokenize call.
    pub closed spec fn last_tokens(&self) -> Seq<TokenView> {
        token_views(self.final_tokens@)
    }

    /// Creates a tokenizer with every token type enabled except `quoted_phrase`.
    pub fn new() -> (tk: Self)
        ensures
            tk.rules() == configured_rules(seq![(tags::QUOTED_PHRASE@, false)]),
            tk.codes() == default_codes(),
            tk.last_tokens() == Seq::<TokenView>::empty(),
    {
        let mut tk = Tokenizer {
            rgxs: Vec::new(),
            final_tokens: Vec::new(),
            fingerprint_codes: default_fingerprint_codes(),
        };
        let config = [(tags::QUOTED_PHRASE, false)];
        tk.define_config(&config);
        proof {
            assert(config_view(config@) =~= seq![(tags::QUOTED_PHRASE@, false)]);
            assert(token_views(Seq::<Token>::empty()) =~= Seq::<TokenView>::empty());
        }
        tk
    }

    /// Tokenizes `sentence` and returns the tokens in left to right order. The
    /// result is also kept for the next [`get_tokens_fp`](Self::get_tokens_fp)
    /// call. The tokens, joined, give the sentence back but for white space.
    pub fn tokenize(&mut self, sentence: &str) -> (tokens: Vec<Token>)
        ensures
            token_views(tokens@) == tokenize_spec(old(self).rules(), sentence@),
            final(self).last_tokens() == token_views(tokens@),
            final(self).rules() == old(self).rules(),
            final(self).codes() == old(self).codes(),
            strip_white_space(concat(token_values(token_views(tokens@)))) == strip_white_space(
                sentence@,
            ),
    {
        let mut out: Vec<Token> = Vec::new();
        tokenize_recursive(&mut out, sentence, &self.rgxs, 0);
        proof {
            assert(rule_views(self.rgxs@).skip(0) =~= rule_views(self.rgxs@));
            assert(token_views(Seq::<Token>::empty()) + tokenize_spec(self.rules(), sentence@)
                =~= tokenize_spec(self.rules(), sentence@));
        }
        let mut result: Vec<Token> = Vec::new();
        let mut i: usize = 0;
        while i < out.len()
            invariant
                i <= out@.len(),
                token_views(result@) == token_views(out@).take(i as int),
            decreases out@.len() - i,
        {
            let t = out[i].copy();
            let ghost prev = token_views(result@);
            result.push(t);
            proof {
                assert(token_views(result@) =~= prev.push(t@));
                assert(token_views(out@).take(i + 1) =~= token_views(out@).take(i as int).push(
                    t@,
                ));
            }
            i = i + 1;
        }
        assert(token_views(out@).take(i as int) =~= token_views(out@));
        self.final_tokens = out;
        result
    }

    /// Sets which token types are active and returns the count of unique active
    /// categories.
    ///
    /// Each pair is a category name and a flag. A `true` flag enables the
    /// category. A `false` flag disables it. Categories not listed stay enabled.
    /// An empty list disables everything, so tokenize splits on spaces and tags
    /// every piece `alien`. This also removes any rules added with
    /// [`add_regex`](Self::add_regex) and resets the fingerprint codes.
    pub fn define_config(&mut self, config: &[(&str, bool)]) -> (count: usize)
        ensures
            final(self).rules() == configured_rules(config_view(config@)),
            final(self).codes() == default_codes(),
            final(self).last_tokens() == old(self).last_tokens(),
            count == categories(final(self).rules()).to_set().len(),
    {
        let mut selected: Vec<Rule> = Vec::new();
        if config.len() > 0 {
            let all = master();
            let ghost cv = config_view(config@);
            let mut i: usize = 0;
            proof {
                assert(rule_views(selected@) =~= select_rules(master_rules().take(0), cv));
            }
            while i < all.len()
                invariant
                    i <= all@.len(),
                    rule_views(all@) == master_rules(),
                    cv == config_view(config@),
                    rule_views(selected@) == select_rules(master_rules().take(i as int), cv),
                decreases all@.len() - i,
            {
                let ghost pre = master_rules().take(i + 1);
                assert(pre.drop_last() =~= master_rules().take(i as int));
                assert(pre.last() == all@[i as int]@);
                if enabled(config, all[i].category.as_str()) {
                    let r = all[i].copy();
                    let ghost before = rule_views(selected@);
                    selected.push(r);
                    assert(rule_views(selected@) =~= before.push(r@));
                }
                i = i + 1;
            }
            assert(master_rules().take(i as int) =~= master_rules());
        } else {
            assert(rule_views(selected@) =~= Seq::<RuleView>::empty());
        }
        let count = count_categories(&selected);
        self.rgxs = selected;
        self.fingerprint_codes = default_fingerprint_codes();
        count
    }

    /// Returns the fingerprint of the tokens from the last
    /// [`tokenize`](Self::tokenize) call: for each token, its tag's code, or
    /// its text when the tag has no code. Before any tokenize call this is
    /// empty.
    pub fn get_tokens_fp(&self) -> (fp: String)
        ensures
            fp@ == fingerprint(self.codes(), self.last_tokens()),
    {
        let ghost tv = self.last_tokens();
        let ghost marks = tv.map_values(|t: TokenView| token_mark(self.codes(), t));
        let mut fp = String::new();
        let mut i: usize = 0;
        proof {
            assert(marks.take(0) =~= Seq::<Seq<char>>::empty());
        }
        while i < self.final_tokens.len()
            invariant
                i <= self.final_tokens@.len(),
                tv == self.last_tokens(),
                marks == tv.map_values(|t: TokenView| token_mark(self.codes(), t)),
                fp@ == concat(marks.take(i as int)),
            decreases self.final_tokens@.len() - i,
        {
            let token = &self.final_tokens[i];
            proof {
                assert(marks.take(i + 1) =~= marks.take(i as int).push(marks[i as int]));
                lemma_concat_push(marks.take(i as int), marks[i as int]);
                assert(tv[i as int] == token@);
            }
            match find_code(&self.fingerprint_codes, token.tag.as_str()) {
                Some(code) => {
                    if code.as_str().is_empty() {
                        fp.append(token.value.as_str());
                    } else {
                        fp.append(code.as_str());
                    }
                },
                None => {
                    fp.append(token.value.as_str());
                },
            }
            i = i + 1;
        }
        assert(marks.take(i as int) =~= marks);
        fp
    }

    /// Adds a regex rule that wins over the built-ins: it is tried before every
    /// other rule. If `tag` already has a code, `fingerprint_code` is ignored.
    /// Otherwise a non-empty code is registered for `tag` as
    /// [`add_tag`](Self::add_tag) does; without a code, or with an empty one,
    /// the rule is accepted only for a built-in category, and no code is
    /// registered. A later [`define_config`](Self::define_config) call removes
    /// added rules.
    pub fn add_regex(
        &mut self,
        regex: Pattern,
        tag: &str,
        fingerprint_code: Option<&str>,
    ) -> (r: Result<(), AddError>)
        ensures
            r is Ok <==> has_code(old(self).codes(), tag@) || (code_missing(fingerprint_code)
                && built_in_category(tag@)) || !code_missing(fingerprint_code),
            r is Ok ==> final(self).rules() == seq![(regex@, tag@)] + old(self).rules(),
            r is Ok && (has_code(old(self).codes(), tag@) || code_missing(fingerprint_code))
                ==> final(self).codes() == old(self).codes(),
            r is Ok && !has_code(old(self).codes(), tag@) && !code_missing(fingerprint_code)
                ==> final(self).codes() == old(self).codes().push(
                (tag@, fingerprint_code.unwrap()@),
            ),
            r matches Err(e) ==> (e matches AddError::MissingFingerprint { tag: t } && t@ == tag@),
            r is Err ==> final(self).rules() == old(self).rules() && final(self).codes() == old(
                self,
            ).codes(),
            final(self).last_tokens() == old(self).last_tokens(),
    {
        if !tag_has_code(&self.fingerprint_codes, tag) {
            match fingerprint_code {
                Some(code) if !code.is_empty() => {
                    match self.add_tag(tag, code) {
                        Ok(()) => {},
                        Err(e) => {
                            return Err(e);
                        },
                    }
                },
                _ => {
                    if !is_built_in_category(tag) {
                        return Err(AddError::MissingFingerprint { tag: String::from_str(tag) });
                    }
                },
            }
        }
        let rule = Rule::new(regex.as_str(), tag);
        let ghost before = self.rules();
        self.rgxs.insert(0, rule);
        assert(self.rules() =~= seq![(regex@, tag@)] + before);
        Ok(())
    }

    /// Registers a new tag with a fingerprint code.
    ///
    /// Returns [`AddError::TagExists`] when `name` already has a code, and
    /// [`AddError::MissingFingerprint`] when the code is empty.
    pub fn add_tag(&mut self, name: &str, fingerprint_code: &str) -> (r: Result<(), AddError>)
        ensures
            final(self).codes() == codes_after_add_tag(old(self).codes(), name@, fingerprint_code@),
            r is Ok <==> !has_code(old(self).codes(), name@) && fingerprint_code@.len() > 0,
            has_code(old(self).codes(), name@) ==> (r matches Err(AddError::TagExists { tag })
                && tag@ == name@),
            !has_code(old(self).codes(), name@) && fingerprint_code@.len() == 0 ==> (r matches Err(
                AddError::MissingFingerprint { tag },
            ) && tag@ == name@),
            final(self).rules() == old(self).rules(),
            final(self).last_tokens() == old(self).last_tokens(),
    {
        if tag_has_code(&self.fingerprint_codes, name) {
            return Err(AddError::TagExists { tag: String::from_str(name) });
        }
        if fingerprint_code.is_empty() {
            return Err(AddError::MissingFingerprint { tag: String::from_str(name) });
        }
        let entry = (String::from_str(name), String::from_str(fingerprint_code));
        let ghost before = self.codes();
        self.fingerprint_codes.push(entry);
        assert(self.codes() =~= before.push((name@, fingerprint_code@)));
        Ok(())
    }
}

impl Default for Tokenizer {
    fn default() -> (tk: Self)
        ensures
            tk.rules() == configured_rules(seq![(tags::QUOTED_PHRASE@, false)]),
            tk.codes() == default_codes(),
            tk.last_tokens() == Seq::<TokenView>::empty(),
    {
        Self::new()
    }
}

} // verus!
