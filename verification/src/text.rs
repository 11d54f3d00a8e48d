//! Text helpers: Unicode white space, trimming, splitting on white space runs,
//! and slicing a string by UTF-8 byte offsets.

use vstd::prelude::*;
use vstd::string::StrSliceExecFns;
use vstd::string::StringSliceAdditionalSpecFns;
use vstd::utf8::*;

verus! {

// ---------------------------------------------------------------------------
// White space
// ---------------------------------------------------------------------------

/// The Unicode `White_Space` property. This is the class that `char::is_whitespace`,
/// `str::trim` and the regex class `\s` use.
pub open spec fn is_white_space(c: char) -> bool {
    ||| ('\u{9}' <= c && c <= '\u{d}')
    ||| c == ' '
    ||| c == '\u{85}'
    ||| c == '\u{a0}'
    ||| c == '\u{1680}'
    ||| ('\u{2000}' <= c && c <= '\u{200a}')
    ||| c == '\u{2028}'
    ||| c == '\u{2029}'
    ||| c == '\u{202f}'
    ||| c == '\u{205f}'
    ||| c == '\u{3000}'
}

/// Decides [`is_white_space`].
pub fn white_space(c: char) -> (b: bool)
    ensures
        b == is_white_space(c),
{
    ('\u{9}' <= c && c <= '\u{d}') || c == ' ' || c == '\u{85}' || c == '\u{a0}' || c
        == '\u{1680}' || ('\u{2000}' <= c && c <= '\u{200a}') || c == '\u{2028}' || c
        == '\u{2029}' || c == '\u{202f}' || c == '\u{205f}' || c == '\u{3000}'
}

/// Every character of `s` is white space.
pub open spec fn all_white_space(s: Seq<char>) -> bool {
    forall|i: int| 0 <= i < s.len() ==> #[trigger] is_white_space(s[i])
}

/// `s` with every white space character removed, the rest kept in order.
pub open spec fn strip_white_space(s: Seq<char>) -> Seq<char>
    decreases s.len(),
{
    if s.len() == 0 {
        s
    } else {
        let rest = strip_white_space(s.drop_last());
        if is_white_space(s.last()) {
            rest
        } else {
            rest.push(s.last())
        }
    }
}

/// Removing white space distributes over concatenation.
pub proof fn lemma_strip_add(a: Seq<char>, b: Seq<char>)
    ensures
        strip_white_space(a + b) == strip_white_space(a) + strip_white_space(b),
    decreases b.len(),
{
    if b.len() == 0 {
        assert(a + b =~= a);
        assert(strip_white_space(a) + strip_white_space(b) =~= strip_white_space(a));
    } else {
        assert((a + b).drop_last() =~= a + b.drop_last());
        assert((a + b).last() == b.last());
        lemma_strip_add(a, b.drop_last());
        if is_white_space(b.last()) {
        } else {
            assert(strip_white_space(a) + strip_white_space(b.drop_last()).push(b.last())
                =~= (strip_white_space(a) + strip_white_space(b.drop_last())).push(b.last()));
        }
    }
}

/// A string made only of white space strips to nothing.
pub proof fn lemma_strip_all_white_space(s: Seq<char>)
    requires
        all_white_space(s),
    ensures
        strip_white_space(s) == Seq::<char>::empty(),
    decreases s.len(),
{
    if s.len() > 0 {
        assert(is_white_space(s[s.len() - 1]));
        assert(all_white_space(s.drop_last())) by {
            assert forall|i: int| 0 <= i < s.drop_last().len() implies #[trigger] is_white_space(
                s.drop_last()[i],
            ) by {
                assert(s.drop_last()[i] == s[i]);
            }
        }
        lemma_strip_all_white_space(s.drop_last());
    }
}

// ---------------------------------------------------------------------------
// Trimming
// ---------------------------------------------------------------------------

/// The number of white space characters at the start of `s`.
pub open spec fn leading_white_space(s: Seq<char>) -> nat
    decreases s.len(),
{
    if s.len() > 0 && is_white_space(s[0]) {
        1 + leading_white_space(s.drop_first())
    } else {
        0
    }
}

/// The number of white space characters at the end of `s`.
pub open spec fn trailing_white_space(s: Seq<char>) -> nat
    decreases s.len(),
{
    if s.len() > 0 && is_white_space(s.last()) {
        1 + trailing_white_space(s.drop_last())
    } else {
        0
    }
}

/// `s` without its leading and trailing white space, as `str::trim` gives it.
pub open spec fn trim(s: Seq<char>) -> Seq<char> {
    let t = s.skip(leading_white_space(s) as int);
    t.take(t.len() - trailing_white_space(t))
}

/// `leading_white_space` is the length of the longest all-white-space prefix.
pub proof fn lemma_leading_white_space(s: Seq<char>, k: int)
    requires
        0 <= k <= s.len(),
        forall|i: int| 0 <= i < k ==> #[trigger] is_white_space(s[i]),
        k == s.len() || !is_white_space(s[k]),
    ensures
        leading_white_space(s) == k,
    decreases k,
{
    if k > 0 {
        assert(is_white_space(s[0]));
        let t = s.drop_first();
        assert forall|i: int| 0 <= i < k - 1 implies #[trigger] is_white_space(t[i]) by {
            assert(t[i] == s[i + 1]);
            assert(is_white_space(s[i + 1]));
        }
        if k < s.len() {
            assert(t[k - 1] == s[k]);
        }
        lemma_leading_white_space(t, k - 1);
    }
}

/// `trailing_white_space` is the length of the longest all-white-space suffix.
pub proof fn lemma_trailing_white_space(s: Seq<char>, k: int)
    requires
        0 <= k <= s.len(),
        forall|i: int| s.len() - k <= i < s.len() ==> #[trigger] is_white_space(s[i]),
        k == s.len() || !is_white_space(s[s.len() - k - 1]),
    ensures
        trailing_white_space(s) == k,
    decreases k,
{
    if k > 0 {
        assert(is_white_space(s[s.len() - 1]));
        let t = s.drop_last();
        assert forall|i: int| t.len() - (k - 1) <= i < t.len() implies #[trigger] is_white_space(
            t[i],
        ) by {
            assert(t[i] == s[i]);
        }
        if k < s.len() {
            assert(t[t.len() - (k - 1) - 1] == s[s.len() - k - 1]);
        }
        lemma_trailing_white_space(t, k - 1);
    }
}

/// Trimming removes white space only.
pub proof fn lemma_strip_trim(s: Seq<char>, i: int, j: int)
    requires
        0 <= i <= j <= s.len(),
        forall|m: int| 0 <= m < i ==> #[trigger] is_white_space(s[m]),
        forall|m: int| j <= m < s.len() ==> #[trigger] is_white_space(s[m]),
    ensures
        strip_white_space(s.subrange(i, j)) == strip_white_space(s),
{
    let a = s.subrange(0, i);
    let b = s.subrange(i, j);
    let c = s.subrange(j, s.len() as int);
    assert(s =~= a + b + c);
    assert(all_white_space(a)) by {
        assert forall|m: int| 0 <= m < a.len() implies #[trigger] is_white_space(a[m]) by {
            assert(a[m] == s[m]);
        }
    }
    assert(all_white_space(c)) by {
        assert forall|m: int| 0 <= m < c.len() implies #[trigger] is_white_space(c[m]) by {
            assert(c[m] == s[j + m]);
        }
    }
    lemma_strip_all_white_space(a);
    lemma_strip_all_white_space(c);
    lemma_strip_add(a + b, c);
    lemma_strip_add(a, b);
    assert(Seq::<char>::empty() + strip_white_space(b) + Seq::<char>::empty() =~= strip_white_space(
        b,
    ));
}

/// The characters of `s`, in order.
pub fn chars_of(s: &str) -> (v: Vec<char>)
    ensures
        v@ == s@,
{
    let mut v: Vec<char> = Vec::new();
    for c in it: s.chars()
        invariant
            v@ == it.seq().take(it.index() as int),
    {
        v.push(c);
    }
    v
}

/// `s` without leading and trailing white space.
pub fn trim_str<'a>(s: &'a str) -> (r: &'a str)
    ensures
        r@ == trim(s@),
        strip_white_space(r@) == strip_white_space(s@),
{
    let cs = chars_of(s);
    let n = cs.len();
    let mut i: usize = 0;
    while i < n && white_space(cs[i])
        invariant
            i <= n,
            n == cs@.len(),
            forall|m: int| 0 <= m < i ==> #[trigger] is_white_space(cs@[m]),
        decreases n - i,
    {
        i = i + 1;
    }
    let mut j: usize = n;
    while j > i && white_space(cs[j - 1])
        invariant
            i <= j <= n,
            n == cs@.len(),
            forall|m: int| j <= m < n ==> #[trigger] is_white_space(cs@[m]),
        decreases j - i,
    {
        j = j - 1;
    }
    proof {
        let sv = s@;
        lemma_leading_white_space(sv, i as int);
        let t = sv.skip(i as int);
        assert forall|m: int| t.len() - (n - j) <= m < t.len() implies #[trigger] is_white_space(
            t[m],
        ) by {
            assert(t[m] == sv[m + i]);
        }
        if j > i {
            assert(t[t.len() - (n - j) - 1] == sv[j - 1]);
        } else if i < n {
            assert(t[0] == sv[i as int]);
        }
        lemma_trailing_white_space(t, (n - j) as int);
        assert(t.take(t.len() - (n - j)) =~= sv.subrange(i as int, j as int));
        lemma_strip_trim(sv, i as int, j as int);
    }
    s.substring_char(i, j)
}

// ---------------------------------------------------------------------------
// Splitting on white space runs
// ---------------------------------------------------------------------------

/// The number of non-white-space characters at the start of `s`.
pub open spec fn leading_text(s: Seq<char>) -> nat
    decreases s.len(),
{
    if s.len() > 0 && !is_white_space(s[0]) {
        1 + leading_text(s.drop_first())
    } else {
        0
    }
}

pub proof fn lemma_leading_text(s: Seq<char>, k: int)
    requires
        0 <= k <= s.len(),
        forall|i: int| 0 <= i < k ==> !#[trigger] is_white_space(s[i]),
        k == s.len() || is_white_space(s[k]),
    ensures
        leading_text(s) == k,
    decreases k,
{
    if k > 0 {
        let t = s.drop_first();
        assert(!is_white_space(s[0]));
        assert forall|i: int| 0 <= i < k - 1 implies !#[trigger] is_white_space(t[i]) by {
            assert(t[i] == s[i + 1]);
            assert(!is_white_space(s[i + 1]));
        }
        if k < s.len() {
            assert(t[k - 1] == s[k]);
        }
        lemma_leading_text(t, k - 1);
    }
}

pub proof fn lemma_leading_text_bounds(s: Seq<char>)
    ensures
        leading_text(s) <= s.len(),
        leading_text(s) < s.len() ==> is_white_space(s[leading_text(s) as int]),
        forall|i: int| 0 <= i < leading_text(s) ==> !#[trigger] is_white_space(s[i]),
    decreases s.len(),
{
    if s.len() > 0 && !is_white_space(s[0]) {
        let t = s.drop_first();
        lemma_leading_text_bounds(t);
        assert forall|i: int| 0 <= i < leading_text(s) implies !#[trigger] is_white_space(s[i]) by {
            if i > 0 {
                assert(s[i] == t[i - 1]);
            }
        }
        if leading_text(s) < s.len() {
            assert(s[leading_text(s) as int] == t[leading_text(t) as int]);
        }
    }
}

pub proof fn lemma_leading_white_space_bounds(s: Seq<char>)
    ensures
        leading_white_space(s) <= s.len(),
        leading_white_space(s) < s.len() ==> !is_white_space(s[leading_white_space(s) as int]),
        forall|i: int| 0 <= i < leading_white_space(s) ==> #[trigger] is_white_space(s[i]),
    decreases s.len(),
{
    if s.len() > 0 && is_white_space(s[0]) {
        let t = s.drop_first();
        lemma_leading_white_space_bounds(t);
        assert forall|i: int| 0 <= i < leading_white_space(s) implies #[trigger] is_white_space(
            s[i],
        ) by {
            if i > 0 {
                assert(s[i] == t[i - 1]);
            }
        }
        if leading_white_space(s) < s.len() {
            assert(s[leading_white_space(s) as int] == t[leading_white_space(t) as int]);
        }
    }
}

/// The pieces that splitting `s` on runs of white space gives, as `Regex::split`
/// with the pattern `\s+` gives them: the text between runs, with an empty piece
/// where `s` starts or ends with white space, and a single empty piece for an
/// empty `s`.
pub open spec fn split_white_space(s: Seq<char>) -> Seq<Seq<char>>
    decreases s.len(),
{
    let k = leading_text(s);
    if k >= s.len() {
        seq![s]
    } else {
        let rest = s.skip(k as int);
        let next = rest.skip(leading_white_space(rest) as int);
        proof {
            lemma_leading_text_bounds(s);
            assert(rest[0] == s[k as int]);
            lemma_leading_white_space_bounds(rest);
            assert(leading_white_space(rest) >= 1);
        }
        seq![s.take(k as int)] + split_white_space(next)
    }
}

/// The concatenation of a sequence of strings.
pub open spec fn concat(pieces: Seq<Seq<char>>) -> Seq<char>
    decreases pieces.len(),
{
    if pieces.len() == 0 {
        Seq::empty()
    } else {
        concat(pieces.drop_last()) + pieces.last()
    }
}

pub proof fn lemma_concat_push(pieces: Seq<Seq<char>>, p: Seq<char>)
    ensures
        concat(pieces.push(p)) == concat(pieces) + p,
{
    assert(pieces.push(p).drop_last() =~= pieces);
}

pub proof fn lemma_concat_add(a: Seq<Seq<char>>, b: Seq<Seq<char>>)
    ensures
        concat(a + b) == concat(a) + concat(b),
    decreases b.len(),
{
    if b.len() == 0 {
        assert(a + b =~= a);
        assert(concat(a) + concat(b) =~= concat(a));
    } else {
        assert((a + b).drop_last() =~= a + b.drop_last());
        lemma_concat_add(a, b.drop_last());
        assert(concat(a) + (concat(b.drop_last()) + b.last()) =~= (concat(a) + concat(
            b.drop_last(),
        )) + b.last());
    }
}

/// Splitting on white space loses white space only.
pub proof fn lemma_split_white_space_strip(s: Seq<char>)
    ensures
        strip_white_space(concat(split_white_space(s))) == strip_white_space(s),
    decreases s.len(),
{
    let k = leading_text(s);
    lemma_leading_text_bounds(s);
    if k >= s.len() {
        lemma_concat_push(Seq::empty(), s);
        assert(Seq::<char>::empty() + s =~= s);
        assert(seq![s] =~= Seq::<Seq<char>>::empty().push(s));
    } else {
        let rest = s.skip(k as int);
        let w = leading_white_space(rest);
        lemma_leading_white_space_bounds(rest);
        let next = rest.skip(w as int);
        assert(rest[0] == s[k as int]);
        lemma_split_white_space_strip(next);
        let head = s.take(k as int);
        let run = rest.take(w as int);
        assert(s =~= head + run + next);
        assert(all_white_space(run)) by {
            assert forall|m: int| 0 <= m < run.len() implies #[trigger] is_white_space(run[m]) by {
                assert(run[m] == rest[m]);
            }
        }
        lemma_strip_all_white_space(run);
        lemma_strip_add(head + run, next);
        lemma_strip_add(head, run);
        lemma_concat_add(seq![head], split_white_space(next));
        lemma_concat_push(Seq::empty(), head);
        assert(seq![head] =~= Seq::<Seq<char>>::empty().push(head));
        assert(Seq::<char>::empty() + head =~= head);
        lemma_strip_add(head, concat(split_white_space(next)));
        assert(strip_white_space(head) + Seq::<char>::empty() =~= strip_white_space(head));
    }
}

/// Splits `s` on runs of white space, as `Regex::split` with `\s+` does.
pub fn split_on_white_space(s: &str) -> (pieces: Vec<String>)
    ensures
        pieces@.map_values(|p: String| p@) == split_white_space(s@),
{
    let cs = chars_of(s);
    let n = cs.len();
    let ghost sv = s@;
    let mut pieces: Vec<String> = Vec::new();
    let mut i: usize = 0;
    proof {
        assert(sv.skip(0) =~= sv);
        assert(pieces@.map_values(|p: String| p@) + split_white_space(sv) =~= split_white_space(
            sv,
        ));
    }
    loop
        invariant
            i <= n,
            n == cs@.len(),
            cs@ == sv,
            sv == s@,
            pieces@.map_values(|p: String| p@) + split_white_space(sv.skip(i as int))
                == split_white_space(sv),
        decreases n - i,
    {
        let mut j: usize = i;
        while j < n && !white_space(cs[j])
            invariant
                i <= j <= n,
                n == cs@.len(),
                forall|m: int| i <= m < j ==> !#[trigger] is_white_space(cs@[m]),
            decreases n - j,
        {
            j = j + 1;
        }
        let ghost rest = sv.skip(i as int);
        proof {
            assert forall|m: int| 0 <= m < j - i implies !#[trigger] is_white_space(rest[m]) by {
                assert(rest[m] == cs@[m + i]);
            }
            if j < n {
                assert(rest[j - i] == cs@[j as int]);
            }
            lemma_leading_text(rest, (j - i) as int);
        }
        let piece = String::from_str(s.substring_char(i, j));
        let ghost before = pieces@.map_values(|p: String| p@);
        pieces.push(piece);
        proof {
            assert(pieces@.map_values(|p: String| p@) =~= before.push(piece@));
            assert(piece@ == rest.take((j - i) as int));
        }
        if j == n {
            proof {
                assert(rest.take((j - i) as int) =~= rest);
                assert(split_white_space(rest) == seq![rest]);
                assert(before.push(piece@) =~= before + seq![rest]);
                assert(sv.skip(n as int) =~= Seq::<char>::empty());
            }
            return pieces;
        }
        let mut k: usize = j;
        while k < n && white_space(cs[k])
            invariant
                j <= k <= n,
                n == cs@.len(),
                forall|m: int| j <= m < k ==> #[trigger] is_white_space(cs@[m]),
            decreases n - k,
        {
            k = k + 1;
        }
        proof {
            let after = rest.skip((j - i) as int);
            assert forall|m: int| 0 <= m < k - j implies #[trigger] is_white_space(after[m]) by {
                assert(after[m] == cs@[m + j]);
            }
            if k < n {
                assert(after[k - j] == cs@[k as int]);
            }
            lemma_leading_white_space(after, (k - j) as int);
            assert(after.skip((k - j) as int) =~= sv.skip(k as int));
            assert(split_white_space(rest) == seq![rest.take((j - i) as int)] + split_white_space(
                sv.skip(k as int),
            ));
            assert(before.push(piece@) + split_white_space(sv.skip(k as int)) =~= before
                + split_white_space(rest));
        }
        i = k;
    }
}

// ---------------------------------------------------------------------------
// Slicing by UTF-8 byte offsets
// ---------------------------------------------------------------------------

/// The characters of `s` whose UTF-8 encoding lies between byte offsets `a` and `b`.
pub open spec fn bytes_between(s: Seq<char>, a: int, b: int) -> Seq<char> {
    decode_utf8(encode_utf8(s).subrange(a, b))
}

/// `a` and `b` are character boundaries of the UTF-8 encoding of `s`, in order.
pub open spec fn byte_range(s: Seq<char>, a: int, b: int) -> bool {
    &&& 0 <= a <= b <= encode_utf8(s).len()
    &&& is_char_boundary(encode_utf8(s), a)
    &&& is_char_boundary(encode_utf8(s), b)
}

/// The start and the end of a string's encoding are character boundaries.
pub proof fn lemma_ends_are_boundaries(s: Seq<char>)
    ensures
        byte_range(s, 0, encode_utf8(s).len() as int),
{
    encode_utf8_valid_utf8(s);
    is_char_boundary_start_end_of_seq(encode_utf8(s));
}

/// Boundaries of a valid encoding stay boundaries within a slice that starts and
/// ends on boundaries, and the slice is valid.
pub proof fn lemma_boundary_in_slice(bytes: Seq<u8>, a: int, b: int, c: int)
    requires
        valid_utf8(bytes),
        0 <= a <= b <= c <= bytes.len(),
        is_char_boundary(bytes, a),
        is_char_boundary(bytes, b),
        is_char_boundary(bytes, c),
    ensures
        valid_utf8(bytes.subrange(a, c)),
        is_char_boundary(bytes.subrange(a, c), b - a),
{
    valid_utf8_split(bytes, a);
    let suffix = bytes.subrange(a, bytes.len() as int);
    if c == bytes.len() {
        assert(suffix =~= bytes.subrange(a, c));
    } else {
        is_char_boundary_iff_is_leading_byte(bytes, c);
        is_char_boundary_iff_is_leading_byte(suffix, c - a);
        assert(suffix[c - a] == bytes[c]);
        valid_utf8_split(suffix, c - a);
        assert(suffix.subrange(0, c - a) =~= bytes.subrange(a, c));
    }
    let slice = bytes.subrange(a, c);
    if b == c {
        is_char_boundary_start_end_of_seq(slice);
    } else if b > a {
        is_char_boundary_iff_is_leading_byte(bytes, b);
        is_char_boundary_iff_is_leading_byte(slice, b - a);
        assert(slice[b - a] == bytes[b]);
    }
}

/// Adjacent slices concatenate.
pub proof fn lemma_bytes_between_add(s: Seq<char>, a: int, b: int, c: int)
    requires
        byte_range(s, a, b),
        byte_range(s, b, c),
    ensures
        bytes_between(s, a, b) + bytes_between(s, b, c) == bytes_between(s, a, c),
{
    let bytes = encode_utf8(s);
    encode_utf8_valid_utf8(s);
    lemma_boundary_in_slice(bytes, a, b, c);
    let slice = bytes.subrange(a, c);
    decode_utf8_split(slice, b - a);
    assert(slice.subrange(0, b - a) =~= bytes.subrange(a, b));
    assert(slice.subrange(b - a, slice.len() as int) =~= bytes.subrange(b, c));
}

/// The whole encoding decodes to the string.
pub proof fn lemma_bytes_between_all(s: Seq<char>)
    ensures
        bytes_between(s, 0, encode_utf8(s).len() as int) == s,
{
    assert(encode_utf8(s).subrange(0, encode_utf8(s).len() as int) =~= encode_utf8(s));
    encode_utf8_decode_utf8(s);
}

/// The part of `s` between byte offsets `a` and `b`.
pub fn slice_bytes<'a>(s: &'a str, a: usize, b: usize) -> (r: &'a str)
    requires
        byte_range(s@, a as int, b as int),
    ensures
        r@ == bytes_between(s@, a as int, b as int),
{
    let ghost bytes = s.spec_bytes();
    proof {
        encode_utf8_valid_utf8(s@);
        lemma_ends_are_boundaries(s@);
        lemma_boundary_in_slice(bytes, a as int, a as int, bytes.len() as int);
        lemma_boundary_in_slice(bytes, a as int, b as int, bytes.len() as int);
    }
    let (_head, rest) = s.split_at(a);
    assert(rest.spec_bytes() =~= bytes.subrange(a as int, bytes.len() as int));
    let (mid, _tail) = rest.split_at(b - a);
    proof {
        assert(mid.spec_bytes() =~= bytes.subrange(a as int, b as int));
        encode_utf8_decode_utf8(mid@);
    }
    mid
}

/// Whether two strings hold the same characters.
pub fn str_equal(a: &str, b: &str) -> (r: bool)
    ensures
        r == (a@ == b@),
{
    let x = chars_of(a);
    let y = chars_of(b);
    if x.len() != y.len() {
        return false;
    }
    let mut i: usize = 0;
    while i < x.len()
        invariant
            i <= x@.len(),
            x@.len() == y@.len(),
            x@ == a@,
            y@ == b@,
            forall|m: int| 0 <= m < i ==> x@[m] == y@[m],
        decreases x@.len() - i,
    {
        if x[i] != y[i] {
            return false;
        }
        i = i + 1;
    }
    assert(x@ =~= y@);
    true
}

} // verus!
