//! Regular expressions, held as their source text, and the calls into the
//! `regex` crate that compile and run them.

use vstd::prelude::*;
use crate::text::byte_range;

verus! {

/// The matches that `regex::Regex::new(pattern)` followed by `find_iter(text)`
/// yields, as byte offset pairs into the UTF-8 encoding of `text`; no matches
/// where `pattern` does not compile.
pub uninterp spec fn regex_find_all(pattern: Seq<char>, text: Seq<char>) -> Seq<(usize, usize)>;

/// Whether `regex::Regex::new(pattern)` succeeds.
pub uninterp spec fn regex_compiles(pattern: Seq<char>) -> bool;

/// Matches as `find_iter` documents them: each starts no later than it ends,
/// both ends fall on character boundaries of the text, and each match starts
/// no earlier than the previous one ended.
pub open spec fn spans_well_formed(spans: Seq<(usize, usize)>, text: Seq<char>) -> bool {
    &&& forall|i: int|
        0 <= i < spans.len() ==> byte_range(text, #[trigger] spans[i].0 as int, spans[i].1 as int)
    &&& forall|i: int| 0 < i < spans.len() ==> spans[i - 1].1 <= #[trigger] spans[i].0
}

/// Compiles `pattern` with `regex::Regex::new` and reports whether that
/// succeeded. Trusted: the result is the name `regex_compiles` of the pattern.
#[verifier::external_body]
fn regex_is_valid(pattern: &str) -> (b: bool)
    ensures
        b == regex_compiles(pattern@),
{
    regex::Regex::new(pattern).is_ok()
}

/// Compiles `pattern` with `regex::Regex::new` and runs `Regex::find_iter` on
/// `text`, handing back the start and end byte offsets of each match; no
/// matches when the pattern does not compile. Trusted: the result is the name
/// `regex_find_all` of the pattern and the text, and it has the shape that the
/// crate documents for `find_iter` and `Match`: successive non-overlapping
/// matches, `start <= end`, both on UTF-8 boundaries of the haystack.
#[verifier::external_body]
pub(crate) fn regex_find_spans(pattern: &str, text: &str) -> (spans: Vec<(usize, usize)>)
    ensures
        spans@ == regex_find_all(pattern@, text@),
        spans_well_formed(spans@, text@),
{
    match regex::Regex::new(pattern) {
        Ok(re) => re.find_iter(text).map(|m| (m.start(), m.end())).collect(),
        Err(_) => Vec::new(),
    }
}

/// A regular expression, held as its source text. It is only made from a
/// source that compiles.
#[derive(Debug)]
pub struct Pattern {
    source: String,
}

impl View for Pattern {
    type V = Seq<char>;

    closed spec fn view(&self) -> Seq<char> {
        self.source@
    }
}

impl Pattern {
    /// The pattern with this source text, or `None` when `regex::Regex::new`
    /// rejects it.
    pub fn new(source: &str) -> (r: Option<Pattern>)
        ensures
            r is Some <==> regex_compiles(source@),
            r matches Some(p) ==> p@ == source@,
    {
        if regex_is_valid(source) {
            Some(Pattern { source: String::from_str(source) })
        } else {
            None
        }
    }

    /// The source text.
    pub fn as_str(&self) -> (s: &str)
        ensures
            s@ == self@,
    {
        self.source.as_str()
    }
}

} // verus!
