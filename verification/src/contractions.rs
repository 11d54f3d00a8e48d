//! Splitting contractions and possessives into separate word tokens.
//!
//! The table holds each contraction once, in lower case, with `|` marking where
//! it splits. A word matches an entry when it equals the entry's text in lower
//! case, in title case (first letter upper case) or in upper case; the word
//! then splits at the same character positions. `I'll` becomes `I` and `'ll`,
//! `CAN'T` becomes `CA` and `N'T`.

use vstd::prelude::*;
use vstd::string::StrSliceExecFns;
use crate::matcher::{regex_find_all, regex_find_spans};
use crate::patterns::{POS_PLURAL, POS_SINGULAR};
use crate::text::{chars_of, concat, lemma_concat_push};

verus! {

/// Number of contraction keys in the built-in table: each entry in lower case,
/// title case and upper case.
pub const CONTRACTION_COUNT: usize = 297;

/// The contraction table, `|` marking the split points.
pub open spec fn contraction_table() -> Seq<Seq<char>> {
    seq![
        "ca|n't"@, "wo|n't"@, "do|n't"@, "does|n't"@, "did|n't"@,
        "is|n't"@, "are|n't"@, "was|n't"@, "were|n't"@, "has|n't"@,
        "have|n't"@, "had|n't"@, "could|n't"@, "would|n't"@, "should|n't"@,
        "might|n't"@, "must|n't"@, "need|n't"@, "sha|n't"@, "ai|n't"@,
        "dare|n't"@, "ought|n't"@, "could|n't|'ve"@, "would|n't|'ve"@, "should|n't|'ve"@,
        "might|n't|'ve"@, "must|n't|'ve"@, "i|'m"@, "i|'ve"@, "i|'ll"@,
        "i|'d"@, "i|'d|'ve"@, "you|'re"@, "you|'ve"@, "you|'ll"@,
        "you|'d"@, "you|'d|'ve"@, "he|'s"@, "he|'ll"@, "he|'d"@,
        "he|'d|'ve"@, "she|'s"@, "she|'ll"@, "she|'d"@, "she|'d|'ve"@,
        "it|'s"@, "it|'ll"@, "it|'d"@, "it|'d|'ve"@, "we|'re"@,
        "we|'ve"@, "we|'ll"@, "we|'d"@, "we|'d|'ve"@, "they|'re"@,
        "they|'ve"@, "they|'ll"@, "they|'d"@, "they|'d|'ve"@, "that|'s"@,
        "that|'ll"@, "that|'d"@, "there|'s"@, "there|'ll"@, "there|'d"@,
        "there|'re"@, "there|'ve"@, "here|'s"@, "what|'s"@, "what|'re"@,
        "what|'ll"@, "what|'d"@, "what|'ve"@, "where|'s"@, "where|'d"@,
        "where|'ve"@, "who|'s"@, "who|'re"@, "who|'ll"@, "who|'d"@,
        "who|'ve"@, "why|'s"@, "why|'d"@, "how|'s"@, "how|'d"@,
        "how|'ll"@, "let|'s"@, "y|'all"@, "should|'ve"@, "could|'ve"@,
        "would|'ve"@, "might|'ve"@, "must|'ve"@, "when|'s"@, "when|'d"@,
        "this|'ll"@, "these|'re"@, "those|'re"@, "somebody|'s"@,
    ]
}

fn contraction_entries() -> (v: Vec<&'static str>)
    ensures
        v@.map_values(|e: &str| e@) == contraction_table(),
        3 * v@.len() == CONTRACTION_COUNT,
{
    let v = vec![
        "ca|n't", "wo|n't", "do|n't", "does|n't", "did|n't",
        "is|n't", "are|n't", "was|n't", "were|n't", "has|n't",
        "have|n't", "had|n't", "could|n't", "would|n't", "should|n't",
        "might|n't", "must|n't", "need|n't", "sha|n't", "ai|n't",
        "dare|n't", "ought|n't", "could|n't|'ve", "would|n't|'ve", "should|n't|'ve",
        "might|n't|'ve", "must|n't|'ve", "i|'m", "i|'ve", "i|'ll",
        "i|'d", "i|'d|'ve", "you|'re", "you|'ve", "you|'ll",
        "you|'d", "you|'d|'ve", "he|'s", "he|'ll", "he|'d",
        "he|'d|'ve", "she|'s", "she|'ll", "she|'d", "she|'d|'ve",
        "it|'s", "it|'ll", "it|'d", "it|'d|'ve", "we|'re",
        "we|'ve", "we|'ll", "we|'d", "we|'d|'ve", "they|'re",
        "they|'ve", "they|'ll", "they|'d", "they|'d|'ve", "that|'s",
        "that|'ll", "that|'d", "there|'s", "there|'ll", "there|'d",
        "there|'re", "there|'ve", "here|'s", "what|'s", "what|'re",
        "what|'ll", "what|'d", "what|'ve", "where|'s", "where|'d",
        "where|'ve", "who|'s", "who|'re", "who|'ll", "who|'d",
        "who|'ve", "why|'s", "why|'d", "how|'s", "how|'d",
        "how|'ll", "let|'s", "y|'all", "should|'ve", "could|'ve",
        "would|'ve", "might|'ve", "must|'ve", "when|'s", "when|'d",
        "this|'ll", "these|'re", "those|'re", "somebody|'s",
    ];
    assert(v@.map_values(|e: &str| e@) =~= contraction_table());
    v
}

/// The text of a table entry, without its split marks.
pub open spec fn entry_key(e: Seq<char>) -> Seq<char>
    decreases e.len(),
{
    if e.len() == 0 {
        e
    } else if e.last() == '|' {
        entry_key(e.drop_last())
    } else {
        entry_key(e.drop_last()).push(e.last())
    }
}

/// The character positions in the entry's text at which it splits.
pub open spec fn entry_cuts(e: Seq<char>) -> Seq<usize>
    decreases e.len(),
{
    if e.len() == 0 {
        Seq::empty()
    } else if e.last() == '|' {
        entry_cuts(e.drop_last()).push(entry_key(e.drop_last()).len() as usize)
    } else {
        entry_cuts(e.drop_last())
    }
}

/// Split positions that go up and stay within a text of length `n`.
pub open spec fn cuts_valid(cuts: Seq<usize>, n: nat) -> bool {
    &&& forall|i: int, j: int| 0 <= i <= j < cuts.len() ==> cuts[i] <= cuts[j]
    &&& forall|i: int| 0 <= i < cuts.len() ==> #[trigger] cuts[i] <= n
}

proof fn lemma_entry_cuts_valid(e: Seq<char>)
    requires
        e.len() <= usize::MAX,
    ensures
        cuts_valid(entry_cuts(e), entry_key(e).len()),
        entry_key(e).len() <= e.len(),
    decreases e.len(),
{
    if e.len() > 0 {
        let d = e.drop_last();
        lemma_entry_cuts_valid(d);
        if e.last() == '|' {
            let c = entry_cuts(d);
            let k = entry_key(d).len() as usize;
            assert(k == entry_key(d).len());
            let c2 = c.push(k);
            assert(entry_cuts(e) == c2);
            assert forall|i: int, j: int| 0 <= i <= j < c2.len() implies c2[i] <= c2[j] by {
                if j == c.len() {
                    if i < c.len() {
                        assert(c2[i] == c[i]);
                        assert(c[i] <= entry_key(d).len());
                    }
                } else {
                    assert(c2[i] == c[i]);
                    assert(c2[j] == c[j]);
                }
            }
            assert forall|i: int| 0 <= i < c2.len() implies #[trigger] c2[i] <= entry_key(e).len() by {
                if i < c.len() {
                    assert(c2[i] == c[i]);
                }
            }
        }
    }
}

/// The upper case of an ASCII letter; any other character is kept.
pub open spec fn ascii_upper(c: char) -> char {
    if 'a' <= c && c <= 'z' {
        ((c as u32) - 32) as char
    } else {
        c
    }
}

/// `s` with every ASCII letter in upper case.
pub open spec fn upper_case(s: Seq<char>) -> Seq<char> {
    s.map_values(|c: char| ascii_upper(c))
}

/// `s` with its first character in upper case.
pub open spec fn title_case(s: Seq<char>) -> Seq<char> {
    if s.len() == 0 {
        s
    } else {
        s.update(0, ascii_upper(s[0]))
    }
}

/// `word` is `key` in lower, title or upper case.
pub open spec fn key_matches(word: Seq<char>, key: Seq<char>) -> bool {
    word == key || word == title_case(key) || word == upper_case(key)
}

/// The split positions of the first entry of `table` that `word` matches.
pub open spec fn lookup_cuts(word: Seq<char>, table: Seq<Seq<char>>) -> Option<Seq<usize>>
    decreases table.len(),
{
    if table.len() == 0 {
        None
    } else if key_matches(word, entry_key(table[0])) {
        Some(entry_cuts(table[0]))
    } else {
        lookup_cuts(word, table.drop_first())
    }
}

/// The split positions of `word` when it is a contraction of the table.
pub open spec fn contraction_cuts(word: Seq<char>) -> Option<Seq<usize>> {
    lookup_cuts(word, contraction_table())
}

/// The start of the `j`th piece when `word` is cut at `cuts`.
pub open spec fn piece_start(word: Seq<char>, cuts: Seq<usize>, j: int) -> int {
    if j <= 0 {
        0
    } else if j - 1 < cuts.len() {
        cuts[j - 1] as int
    } else {
        word.len() as int
    }
}

/// The pieces of `word` cut at the positions `cuts`.
pub open spec fn cut_pieces(word: Seq<char>, cuts: Seq<usize>) -> Seq<Seq<char>> {
    Seq::new(
        cuts.len() + 1,
        |j: int| word.subrange(piece_start(word, cuts, j), piece_start(word, cuts, j + 1)),
    )
}

proof fn lemma_cut_pieces_concat(word: Seq<char>, cuts: Seq<usize>, k: int)
    requires
        cuts_valid(cuts, word.len()),
        0 <= k <= cuts.len() + 1,
    ensures
        concat(cut_pieces(word, cuts).take(k)) == word.take(piece_start(word, cuts, k)),
    decreases k,
{
    let ps = cut_pieces(word, cuts);
    if k == 0 {
        assert(ps.take(0) =~= Seq::<Seq<char>>::empty());
        assert(word.take(0) =~= Seq::<char>::empty());
    } else {
        lemma_cut_pieces_concat(word, cuts, k - 1);
        assert(ps.take(k) =~= ps.take(k - 1).push(ps[k - 1]));
        lemma_concat_push(ps.take(k - 1), ps[k - 1]);
        let a = piece_start(word, cuts, k - 1);
        let b = piece_start(word, cuts, k);
        assert(0 <= a <= b <= word.len()) by {
            if k >= 2 && k - 1 < cuts.len() {
                assert(cuts[k - 2] <= cuts[k - 1]);
            }
            if k >= 2 {
                assert(cuts[k - 2] <= word.len());
            }
            if k - 1 < cuts.len() {
                assert(cuts[k - 1] <= word.len());
            }
        }
        assert(word.take(a) + word.subrange(a, b) =~= word.take(b));
    }
}

/// Cutting a word and joining the pieces gives the word back.
pub proof fn lemma_cut_pieces_join(word: Seq<char>, cuts: Seq<usize>)
    requires
        cuts_valid(cuts, word.len()),
    ensures
        concat(cut_pieces(word, cuts)) == word,
{
    lemma_cut_pieces_concat(word, cuts, cuts.len() + 1int);
    assert(cut_pieces(word, cuts).take(cuts.len() + 1int) =~= cut_pieces(word, cuts));
    assert(word.take(word.len() as int) =~= word);
}

/// How a word that no table entry matches splits, given whether the singular
/// and the plural possessive pattern match it: a singular possessive
/// (`dog's`) loses its last two characters to a second part (`'s`), a plural
/// possessive (`cats'`) its last character (`'`); otherwise it stays whole.
pub open spec fn possessive_parts(word: Seq<char>, singular: bool, plural: bool) -> Seq<Seq<char>> {
    if singular && word.len() >= 2 {
        seq![word.take(word.len() - 2), word.skip(word.len() - 2)]
    } else if plural && word.len() >= 1 {
        seq![word.take(word.len() - 1), word.skip(word.len() - 1)]
    } else {
        seq![word]
    }
}

/// How a word with an apostrophe splits: by the contraction table first, then
/// as a singular possessive (`dog's` to `dog` and `'s`), then as a plural
/// possessive (`cats'` to `cats` and `'`); otherwise it stays whole.
pub open spec fn word_parts(word: Seq<char>) -> Seq<Seq<char>> {
    match contraction_cuts(word) {
        Some(cuts) => cut_pieces(word, cuts),
        None => possessive_parts(
            word,
            regex_find_all(POS_SINGULAR@, word).len() > 0,
            regex_find_all(POS_PLURAL@, word).len() > 0,
        ),
    }
}

fn parse_entry(e: &str) -> (r: (Vec<char>, Vec<usize>))
    ensures
        e@.len() <= usize::MAX,
        r.0@ == entry_key(e@),
        r.1@ == entry_cuts(e@),
{
    let cs = chars_of(e);
    let mut key: Vec<char> = Vec::new();
    let mut cuts: Vec<usize> = Vec::new();
    let mut i: usize = 0;
    while i < cs.len()
        invariant
            i <= cs@.len(),
            cs@ == e@,
            key@ == entry_key(cs@.take(i as int)),
            cuts@ == entry_cuts(cs@.take(i as int)),
            key@.len() <= i,
        decreases cs@.len() - i,
    {
        let c = cs[i];
        assert(cs@.take(i + 1).drop_last() =~= cs@.take(i as int));
        if c == '|' {
            cuts.push(key.len());
        } else {
            key.push(c);
        }
        i = i + 1;
    }
    assert(cs@.take(i as int) =~= cs@);
    (key, cuts)
}

fn upper_char(c: char) -> (r: char)
    ensures
        r == ascii_upper(c),
{
    if 'a' <= c && c <= 'z' {
        let b: u8 = c as u8;
        (b - 32) as char
    } else {
        c
    }
}

/// Decides [`key_matches`].
fn matches_key(word: &Vec<char>, key: &Vec<char>) -> (b: bool)
    ensures
        b == key_matches(word@, key@),
{
    if word.len() != key.len() {
        proof {
            assert(title_case(key@).len() == key@.len());
            assert(upper_case(key@).len() == key@.len());
        }
        return false;
    }
    let n = word.len();
    let mut same = true;
    let mut title = true;
    let mut upper = true;
    let mut i: usize = 0;
    while i < n
        invariant
            i <= n,
            n == word@.len(),
            n == key@.len(),
            same == (forall|m: int| 0 <= m < i ==> word@[m] == key@[m]),
            title == (forall|m: int|
                0 <= m < i ==> word@[m] == (if m == 0 {
                    ascii_upper(key@[m])
                } else {
                    key@[m]
                })),
            upper == (forall|m: int| 0 <= m < i ==> word@[m] == ascii_upper(key@[m])),
        decreases n - i,
    {
        let w = word[i];
        let k = key[i];
        let ku = upper_char(k);
        if w != k {
            same = false;
        }
        if w != ku {
            upper = false;
        }
        if i == 0 {
            if w != ku {
                title = false;
            }
        } else if w != k {
            title = false;
        }
        i = i + 1;
    }
    proof {
        if same {
            assert(word@ =~= key@);
        }
        if upper {
            assert(word@ =~= upper_case(key@));
        }
        if title && n > 0 {
            assert(word@ =~= title_case(key@));
        }
        if title && n == 0 {
            assert(word@ =~= key@);
        }
        if word@ == key@ {
            assert(same);
        }
        if word@ == upper_case(key@) {
            assert forall|m: int| 0 <= m < n implies word@[m] == ascii_upper(key@[m]) by {
                assert(word@[m] == upper_case(key@)[m]);
            }
        }
        if word@ == title_case(key@) && n > 0 {
            assert forall|m: int|
                0 <= m < n implies word@[m] == (if m == 0 {
                ascii_upper(key@[m])
            } else {
                key@[m]
            }) by {
                assert(word@[m] == title_case(key@)[m]);
            }
        }
    }
    same || title || upper
}

/// The split positions of `word` when it is a contraction of the table.
fn lookup_contraction(word: &Vec<char>) -> (r: Option<Vec<usize>>)
    ensures
        r matches Some(cuts) ==> contraction_cuts(word@) == Some(cuts@) && cuts_valid(
            cuts@,
            word@.len(),
        ),
        r is None ==> contraction_cuts(word@) is None,
{
    let entries = contraction_entries();
    let ghost table = contraction_table();
    let mut i: usize = 0;
    assert(table.skip(0) =~= table);
    while i < entries.len()
        invariant
            i <= entries@.len(),
            entries@.map_values(|e: &str| e@) == table,
            table == contraction_table(),
            lookup_cuts(word@, table) == lookup_cuts(word@, table.skip(i as int)),
        decreases entries@.len() - i,
    {
        let entry = entries[i];
        let (key, cuts) = parse_entry(entry);
        let ghost rest = table.skip(i as int);
        assert(rest[0] == entry@);
        assert(rest.drop_first() =~= table.skip(i + 1));
        if matches_key(word, &key) {
            proof {
                lemma_entry_cuts_valid(entry@);
                assert(word@.len() == key@.len()) by {
                    assert(title_case(key@).len() == key@.len());
                    assert(upper_case(key@).len() == key@.len());
                }
            }
            return Some(cuts);
        }
        i = i + 1;
    }
    assert(table.skip(i as int) =~= Seq::<Seq<char>>::empty());
    None
}

/// Whether `s` holds an ASCII apostrophe.
pub fn contains_apostrophe(s: &str) -> (b: bool)
    ensures
        b == s@.contains('\''),
{
    let cs = chars_of(s);
    let mut i: usize = 0;
    while i < cs.len()
        invariant
            i <= cs@.len(),
            cs@ == s@,
            forall|m: int| 0 <= m < i ==> cs@[m] != '\'',
        decreases cs@.len() - i,
    {
        if cs[i] == '\'' {
            return true;
        }
        i = i + 1;
    }
    false
}

/// Splits a word that holds an apostrophe into its parts, as [`word_parts`]
/// says. The parts, joined, give the word back.
pub fn manage_contraction(word: &str) -> (parts: Vec<String>)
    ensures
        parts@.map_values(|p: String| p@) == word_parts(word@),
        concat(word_parts(word@)) == word@,
{
    let cs = chars_of(word);
    let n = cs.len();
    let mut parts: Vec<String> = Vec::new();
    match lookup_contraction(&cs) {
        Some(cuts) => {
            let m = cuts.len();
            let mut j: usize = 0;
            let mut start: usize = 0;
            while j < m
                invariant
                    j <= m,
                    m == cuts@.len(),
                    n == word@.len(),
                    cs@ == word@,
                    cuts_valid(cuts@, word@.len()),
                    start == piece_start(word@, cuts@, j as int),
                    parts@.map_values(|p: String| p@) == cut_pieces(word@, cuts@).take(j as int),
                decreases m - j,
            {
                let end = cuts[j];
                proof {
                    if j >= 1 {
                        assert(cuts@[j - 1] <= cuts@[j as int]);
                    }
                    assert(cuts@[j as int] <= word@.len());
                }
                let piece = String::from_str(word.substring_char(start, end));
                let ghost before = parts@.map_values(|p: String| p@);
                parts.push(piece);
                proof {
                    assert(parts@.map_values(|p: String| p@) =~= before.push(piece@));
                    assert(cut_pieces(word@, cuts@).take(j + 1) =~= cut_pieces(word@, cuts@).take(
                        j as int,
                    ).push(piece@));
                }
                start = end;
                j = j + 1;
            }
            proof {
                if m >= 1 {
                    assert(cuts@[m - 1] <= word@.len());
                }
            }
            let piece = String::from_str(word.substring_char(start, n));
            let ghost before = parts@.map_values(|p: String| p@);
            parts.push(piece);
            proof {
                assert(parts@.map_values(|p: String| p@) =~= before.push(piece@));
                assert(cut_pieces(word@, cuts@).take(m + 1) =~= cut_pieces(word@, cuts@).take(
                    m as int,
                ).push(piece@));
                assert(cut_pieces(word@, cuts@).take(m + 1) =~= cut_pieces(word@, cuts@));
                lemma_cut_pieces_join(word@, cuts@);
                assert(word_parts(word@) == cut_pieces(word@, cuts@));
            }
            parts
        },
        None => {
            let singular = regex_find_spans(POS_SINGULAR, word).len() > 0;
            let plural = if singular && n >= 2 {
                false
            } else {
                regex_find_spans(POS_PLURAL, word).len() > 0
            };
            let parts = split_possessive(word, singular, plural);
            proof {
                let p = regex_find_all(POS_PLURAL@, word@).len() > 0;
                assert(possessive_parts(word@, singular, plural) == possessive_parts(
                    word@,
                    singular,
                    p,
                ));
            }
            parts
        },
    }
}

/// Splits a word that no table entry matches, as [`possessive_parts`] says,
/// given whether the singular and the plural possessive pattern match it.
pub fn split_possessive(word: &str, singular: bool, plural: bool) -> (parts: Vec<String>)
    ensures
        parts@.map_values(|p: String| p@) == possessive_parts(word@, singular, plural),
        concat(possessive_parts(word@, singular, plural)) == word@,
{
    let n = word.unicode_len();
    let mut parts: Vec<String> = Vec::new();
    if (singular && n >= 2) || (plural && n >= 1) {
        let k: usize = if singular && n >= 2 {
            2
        } else {
            1
        };
        let head = String::from_str(word.substring_char(0, n - k));
        let tail = String::from_str(word.substring_char(n - k, n));
        parts.push(head);
        parts.push(tail);
        proof {
            let w = word@;
            assert(parts@.map_values(|p: String| p@) =~= seq![w.take(n - k), w.skip(n - k)]);
            let ps = seq![w.take(n - k), w.skip(n - k)];
            assert(ps =~= Seq::<Seq<char>>::empty().push(w.take(n - k)).push(w.skip(n - k)));
            lemma_concat_push(Seq::<Seq<char>>::empty(), w.take(n - k));
            lemma_concat_push(Seq::<Seq<char>>::empty().push(w.take(n - k)), w.skip(n - k));
            assert(Seq::<char>::empty() + w.take(n - k) + w.skip(n - k) =~= w);
        }
    } else {
        parts.push(String::from_str(word));
        proof {
            let w = word@;
            assert(parts@.map_values(|p: String| p@) =~= seq![w]);
            assert(seq![w] =~= Seq::<Seq<char>>::empty().push(w));
            lemma_concat_push(Seq::<Seq<char>>::empty(), w);
            assert(Seq::<char>::empty() + w =~= w);
        }
    }
    parts
}

} // verus!
