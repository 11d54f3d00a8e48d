//! Stateful sequence test.
//!
//! One shared instance runs a sequence of calls. Config changes and added rules
//! carry into later calls: define_config resets added rules and fingerprint
//! codes, and the fingerprint reads the last tokenize result.

use english_tokenizer::{Pattern, Token, Tokenizer};

fn pairs(tokens: Vec<Token>) -> Vec<(String, String)> {
    tokens.into_iter().map(|t| (t.value, t.tag)).collect()
}

#[test]
fn shared_instance_sequence() {
    let mut tk = Tokenizer::new();

    // Blank inputs produce no tokens.
    assert_eq!(pairs(tk.tokenize("")), vec![]);
    assert_eq!(pairs(tk.tokenize("   ")), vec![]);

    // Simple hashtag.
    let got = pairs(tk.tokenize("feeling good #FunTime"));
    assert_eq!(got[2], ("#FunTime".to_string(), "hashtag".to_string()));

    // Fingerprint.
    assert_eq!(tk.get_tokens_fp(), "wwh");

    // Hashtag off returns 13, then # falls through to symbol.
    assert_eq!(tk.define_config(&[("hashtag", false)]), 13);

    // Add a custom emoticon regex for an existing tag. It wins over built-ins.
    tk.add_regex(
        Pattern::new(r"(?i):\||O\.O|:`\(|\+o\(|\(oo\)|:%|:\$|>\|<|<-").unwrap(),
        "emoticon",
        None,
    )
    .unwrap();

    // Adding a regex for an unknown tag without a code is an error.
    let err = tk
        .add_regex(Pattern::new(r"(?i)\(oo\)").unwrap(), "pig", None)
        .unwrap_err();
    assert_eq!(
        err.message(),
        "Tag pig doesn't exist; Provide a 'fingerprintCode' to add it as a tag."
    );

    // Adding a tag that already exists is an error.
    let err = tk.add_tag("emoticon", "8").unwrap_err();
    assert_eq!(err.message(), "Tag emoticon already exists");

    // Add a new tag via add_regex, then reset.
    tk.add_regex(Pattern::new(r"(?i)superman").unwrap(), "superman", Some("s"))
        .unwrap();

    // define_config resets the added rule and fingerprint codes.
    assert_eq!(tk.define_config(&[("word", true)]), 14);

    // Empty config returns 0 and tags everything alien.
    assert_eq!(tk.define_config(&[]), 0);
}
