//! Tokens and the errors of adding tags and rules.

use vstd::prelude::*;
use vstd::string::StringExecFns;

verus! {

/// A single token: its text and its type tag.
#[derive(Debug, Clone, PartialEq, Eq)]
pub struct Token {
    /// The matched text, exactly as it appeared in the input.
    pub value: String,
    /// The token type, for example `word`, `number`, or `punctuation`.
    pub tag: String,
}

/// A token as plain values: its text and its tag.
pub type TokenView = (Seq<char>, Seq<char>);

impl View for Token {
    type V = TokenView;

    open spec fn view(&self) -> TokenView {
        (self.value@, self.tag@)
    }
}

/// The views of a sequence of tokens.
pub open spec fn token_views(tokens: Seq<Token>) -> Seq<TokenView> {
    tokens.map_values(|t: Token| t@)
}

/// The texts of a sequence of tokens.
pub open spec fn token_values(tokens: Seq<TokenView>) -> Seq<Seq<char>> {
    tokens.map_values(|t: TokenView| t.0)
}

impl Token {
    /// A token with this text and tag.
    pub fn new(value: &str, tag: &str) -> (t: Token)
        ensures
            t@ == (value@, tag@),
    {
        Token { value: String::from_str(value), tag: String::from_str(tag) }
    }

    /// A copy of this token.
    pub fn copy(&self) -> (t: Token)
        ensures
            t@ == self@,
    {
        Token { value: self.value.clone(), tag: self.tag.clone() }
    }
}

/// Error returned when a tag or rule cannot be added.
#[derive(Debug, Clone, PartialEq, Eq)]
pub enum AddError {
    /// A new tag was needed but no usable fingerprint code was given.
    MissingFingerprint {
        /// The tag that has no code.
        tag: String,
    },
    /// The tag already has a fingerprint code.
    TagExists {
        /// The tag that exists.
        tag: String,
    },
}

/// The message of an error, word for word.
pub open spec fn error_message(e: AddError) -> Seq<char> {
    match e {
        AddError::MissingFingerprint { tag } => "Tag "@ + tag@
            + " doesn't exist; Provide a 'fingerprintCode' to add it as a tag."@,
        AddError::TagExists { tag } => "Tag "@ + tag@ + " already exists"@,
    }
}

impl AddError {
    /// The message of this error, as its `Display` would show it.
    pub fn message(&self) -> (m: String)
        ensures
            m@ == error_message(*self),
    {
        let mut m = String::from_str("Tag ");
        match self {
            AddError::MissingFingerprint { tag } => {
                m.append(tag.as_str());
                m.append(" doesn't exist; Provide a 'fingerprintCode' to add it as a tag.");
            },
            AddError::TagExists { tag } => {
                m.append(tag.as_str());
                m.append(" already exists");
            },
        }
        m
    }
}

} // verus!
