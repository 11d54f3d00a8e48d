//! Tests of the library's own promises, on concrete values.

use english_tokenizer::contractions::{contains_apostrophe, manage_contraction, split_possessive};
use english_tokenizer::patterns::master;
use english_tokenizer::tags;
use english_tokenizer::text::{split_on_white_space, str_equal, trim_str, white_space};
use english_tokenizer::tokenizer::{apply_matches, default_fingerprint_codes, Unit};
use english_tokenizer::{AddError, Pattern, Token, Tokenizer, CONTRACTION_COUNT};

fn pairs(tk: &mut Tokenizer, input: &str) -> Vec<(String, String)> {
    tk.tokenize(input)
        .into_iter()
        .map(|t| (t.value, t.tag))
        .collect()
}

fn without_white_space(s: &str) -> String {
    s.chars().filter(|c| !c.is_whitespace()).collect()
}

#[test]
fn tokens_join_back_to_input_but_for_white_space() {
    let mut tk = Tokenizer::new();
    for input in [
        "  I'd've said: \"dog's\" cats' 16:00 hours, ok?  ",
        "Call @bob at 9 am #Plans \u{1F389} r2d2@gmail.com https://x.org/a",
        "\u{00A0}a\u{2009}b\u{3000}c",
    ] {
        let tokens = tk.tokenize(input);
        let joined: String = tokens.iter().map(|t| t.value.as_str()).collect();
        assert_eq!(without_white_space(&joined), without_white_space(input), "{input:?}");
    }
}

#[test]
fn tags_come_from_active_rules_or_alien() {
    let mut tk = Tokenizer::new();
    tk.define_config(&[("word", false), ("punctuation", false)]);
    let got = pairs(&mut tk, "hello, world 42");
    assert_eq!(
        got,
        vec![
            ("hello,".to_string(), "alien".to_string()),
            ("world".to_string(), "alien".to_string()),
            ("42".to_string(), "number".to_string()),
        ]
    );
}

#[test]
fn latest_flag_for_a_category_wins() {
    let mut tk = Tokenizer::new();
    assert_eq!(tk.define_config(&[("hashtag", true), ("hashtag", false)]), 13);
    assert_eq!(tk.define_config(&[("hashtag", false), ("hashtag", true)]), 14);
}

#[test]
fn added_rule_is_tried_first_and_config_removes_it() {
    let mut tk = Tokenizer::new();
    tk.add_regex(Pattern::new(r"\d+").unwrap(), "digits", Some("d"))
        .unwrap();
    assert_eq!(
        pairs(&mut tk, "1st"),
        vec![
            ("1".to_string(), "digits".to_string()),
            ("st".to_string(), "word".to_string()),
        ]
    );
    assert_eq!(tk.get_tokens_fp(), "dw");
    tk.define_config(&[("word", true)]);
    assert_eq!(pairs(&mut tk, "1st"), vec![("1st".to_string(), "ordinal".to_string())]);
}

#[test]
fn fingerprint_one_char_per_token_and_pass_through() {
    let mut tk = Tokenizer::new();
    tk.tokenize("one 2 3rd @me");
    assert_eq!(tk.get_tokens_fp(), "wnom");
    tk.tokenize("a ... b");
    assert_eq!(tk.get_tokens_fp(), "w...w");
}

#[test]
fn fingerprint_follows_the_last_tokenize_and_config_reset() {
    let mut tk = Tokenizer::new();
    tk.add_tag("x", "X").unwrap();
    tk.add_regex(Pattern::new("zz").unwrap(), "x", None).unwrap();
    tk.tokenize("zz top");
    assert_eq!(tk.get_tokens_fp(), "Xw");
    // define_config leaves the last tokens alone but resets the codes.
    tk.define_config(&[("word", true)]);
    assert_eq!(tk.get_tokens_fp(), "zzw");
}

#[test]
fn add_tag_registers_once() {
    let mut tk = Tokenizer::new();
    assert_eq!(tk.add_tag("greeting", "g"), Ok(()));
    assert_eq!(
        tk.add_tag("greeting", "h"),
        Err(AddError::TagExists {
            tag: "greeting".to_string()
        })
    );
}

#[test]
fn add_regex_errors_leave_rules_alone() {
    let mut tk = Tokenizer::new();
    let err = tk
        .add_regex(Pattern::new("abc").unwrap(), "newtag", None)
        .unwrap_err();
    assert_eq!(
        err.message(),
        "Tag newtag doesn't exist; Provide a 'fingerprintCode' to add it as a tag."
    );
    assert_eq!(pairs(&mut tk, "abc"), vec![("abc".to_string(), "word".to_string())]);
}

#[test]
fn invalid_pattern_is_refused() {
    assert!(Pattern::new("foo(bar").is_none());
    assert!(Pattern::new(r"\w{1000}").is_none());
    let p = Pattern::new(r"(?i)a+").unwrap();
    assert_eq!(p.as_str(), r"(?i)a+");
}

#[test]
fn empty_config_splits_on_all_white_space() {
    let mut tk = Tokenizer::new();
    assert_eq!(tk.define_config(&[]), 0);
    assert_eq!(pairs(&mut tk, ""), vec![("".to_string(), "alien".to_string())]);
    assert_eq!(
        pairs(&mut tk, "a\tb\n"),
        vec![
            ("a".to_string(), "alien".to_string()),
            ("b".to_string(), "alien".to_string()),
            ("".to_string(), "alien".to_string()),
        ]
    );
}

#[test]
fn contraction_table_variants() {
    assert_eq!(CONTRACTION_COUNT, 297);
    assert_eq!(manage_contraction("Won't"), vec!["Wo".to_string(), "n't".to_string()]);
    assert_eq!(manage_contraction("I'M"), vec!["I".to_string(), "'M".to_string()]);
    assert_eq!(
        manage_contraction("WOULDN'T'VE"),
        vec!["WOULD".to_string(), "N'T".to_string(), "'VE".to_string()]
    );
    // Neither the table nor a possessive: kept whole.
    assert_eq!(manage_contraction("rock'n'roll"), vec!["rock'n'roll".to_string()]);
    assert_eq!(manage_contraction("bosses'"), vec!["bosses".to_string(), "'".to_string()]);
    assert_eq!(manage_contraction("cat's"), vec!["cat".to_string(), "'s".to_string()]);
    for w in ["Won't", "you'd've", "bosses'", "O'Neil"] {
        assert_eq!(manage_contraction(w).concat(), w);
    }
}

#[test]
fn apostrophe_only_in_word_rules_triggers_splitting() {
    assert!(contains_apostrophe("it's"));
    assert!(!contains_apostrophe("it\u{2019}s"));
    let mut tk = Tokenizer::new();
    tk.add_regex(Pattern::new("can't").unwrap(), "phrase", Some("p"))
        .unwrap();
    assert_eq!(pairs(&mut tk, "can't"), vec![("can't".to_string(), "phrase".to_string())]);
}

#[test]
fn text_helpers() {
    assert_eq!(trim_str("\u{3000} a b \u{85}"), "a b");
    assert_eq!(trim_str("   "), "");
    assert_eq!(
        split_on_white_space(" a  b "),
        vec!["".to_string(), "a".to_string(), "b".to_string(), "".to_string()]
    );
    assert_eq!(split_on_white_space(""), vec!["".to_string()]);
    assert!(white_space('\u{2028}'));
    assert!(!white_space('\u{200b}'));
    assert!(str_equal("word", tags::WORD));
    assert!(!str_equal("words", tags::WORD));
}

#[test]
fn built_in_tables() {
    let rules = master();
    assert_eq!(rules.len(), 17);
    assert_eq!(rules[0].category, "quoted_phrase");
    assert_eq!(rules[16].category, "symbol");
    let codes = default_fingerprint_codes();
    assert_eq!(codes.len(), 13);
    assert!(codes.iter().all(|(t, _)| t != "punctuation" && t != "symbol"));
    assert_eq!(codes[11], ("word".to_string(), "w".to_string()));
    let t = Token::new("x", "y");
    assert_eq!(t.value, "x");
    assert_eq!(t.tag, "y");
}

#[test]
fn default_tokenizer_matches_new() {
    let mut a = Tokenizer::default();
    let mut b = Tokenizer::new();
    let s = "say \"hi there\" now";
    assert_eq!(a.tokenize(s), b.tokenize(s));
    assert_eq!(b.define_config(&[("quoted_phrase", false)]), 13);
}

fn describe(units: Vec<Unit>) -> Vec<String> {
    units
        .into_iter()
        .map(|u| match u {
            Unit::Token(t) => format!("T:{}:{}", t.value, t.tag),
            Unit::Fragment(f) => format!("F:{}", f),
        })
        .collect()
}

#[test]
fn matches_split_text_into_units() {
    // "né" is three bytes; the match covers bytes 3..6 ("né").
    let units = apply_matches(" a né  b ", "x", &vec![(3, 6)]);
    assert_eq!(describe(units), vec!["F:a", "T:né:x", "F:b"]);
    let units = apply_matches("can't stop", "word", &vec![(0, 5), (6, 10)]);
    assert_eq!(describe(units), vec!["T:ca:word", "T:n't:word", "T:stop:word"]);
    let units = apply_matches("   ", "x", &vec![]);
    assert!(describe(units).is_empty());
    let units = apply_matches("ab", "x", &vec![(0, 0), (2, 2)]);
    assert_eq!(describe(units), vec!["T::x", "F:ab", "T::x"]);
}

#[test]
fn possessive_split_by_flags() {
    assert_eq!(split_possessive("dog's", true, false), vec!["dog".to_string(), "'s".to_string()]);
    assert_eq!(split_possessive("cats'", false, true), vec!["cats".to_string(), "'".to_string()]);
    assert_eq!(split_possessive("x", true, false), vec!["x".to_string()]);
    assert_eq!(split_possessive("ab", false, false), vec!["ab".to_string()]);
}

#[test]
fn code_given_for_built_in_category_is_registered() {
    let mut tk = Tokenizer::new();
    tk.add_regex(Pattern::new("--").unwrap(), "punctuation", Some("x"))
        .unwrap();
    tk.tokenize("a -- b.");
    assert_eq!(tk.get_tokens_fp(), "wxwx");
    assert_eq!(
        tk.add_tag("punctuation", "y"),
        Err(AddError::TagExists {
            tag: "punctuation".to_string()
        })
    );
    // An empty code for a built-in category counts as no code: the rule is
    // accepted, no code is registered, and the matches show their own text.
    tk.add_regex(Pattern::new("~~").unwrap(), "symbol", Some(""))
        .unwrap();
    tk.tokenize("a ~~ b");
    assert_eq!(tk.get_tokens_fp(), "w~~w");
    assert_eq!(tk.add_tag("symbol", "y"), Ok(()));
}

#[test]
fn every_built_in_pattern_compiles() {
    let rules = english_tokenizer::patterns::master();
    assert!(!rules.is_empty());
    for rule in &rules {
        assert!(
            Pattern::new(&rule.pattern).is_some(),
            "pattern for {} does not compile",
            rule.category
        );
    }
}
