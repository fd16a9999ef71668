//! Text as sequences of characters: the few string operations the rest of the
//! library is built on, each with an exact specification.

use vstd::prelude::*;
use vstd::utf8::*;

verus! {

broadcast use {
    vstd::seq::group_seq_axioms,
    vstd::slice::group_slice_axioms,
    vstd::string::group_string_axioms,
    vstd::std_specs::vec::group_vec_axioms,
};

// ---------------------------------------------------------------------------
// Characters and whole strings
// ---------------------------------------------------------------------------

/// The code points with the Unicode `White_Space` property.
pub open spec fn is_space(c: char) -> bool {
    ||| 0x09 <= c as u32 <= 0x0d
    ||| c as u32 == 0x20
    ||| c as u32 == 0x85
    ||| c as u32 == 0xa0
    ||| c as u32 == 0x1680
    ||| 0x2000 <= c as u32 <= 0x200a
    ||| c as u32 == 0x2028
    ||| c as u32 == 0x2029
    ||| c as u32 == 0x202f
    ||| c as u32 == 0x205f
    ||| c as u32 == 0x3000
}

/// `char::is_whitespace`: true exactly for the code points with the Unicode
/// `White_Space` property.
#[verifier::external_body]
pub(crate) fn char_is_space(c: char) -> (r: bool)
    ensures
        r == is_space(c),
{
    c.is_whitespace()
}

/// `String::push`: appends one character.
#[verifier::external_body]
pub(crate) fn push_char(s: &mut String, c: char)
    ensures
        final(s)@ == old(s)@.push(c),
{
    s.push(c)
}

/// What `str::to_lowercase` makes of a string.
pub uninterp spec fn lowercase(s: Seq<char>) -> Seq<char>;

/// What `str::to_uppercase` makes of a string.
pub uninterp spec fn uppercase(s: Seq<char>) -> Seq<char>;

/// One ASCII letter in lower case; any other character unchanged.
pub open spec fn ascii_lower(c: char) -> char {
    if 'A' <= c <= 'Z' {
        ((c as u32) + 32) as char
    } else {
        c
    }
}

/// One ASCII letter in upper case; any other character unchanged.
pub open spec fn ascii_upper(c: char) -> char {
    if 'a' <= c <= 'z' {
        ((c as u32) - 32) as char
    } else {
        c
    }
}

/// A string with its ASCII letters in lower case.
pub open spec fn ascii_lowercase(s: Seq<char>) -> Seq<char> {
    s.map_values(|c: char| ascii_lower(c))
}

/// A string with its ASCII letters in upper case.
pub open spec fn ascii_uppercase(s: Seq<char>) -> Seq<char> {
    s.map_values(|c: char| ascii_upper(c))
}

/// Some character is outside ASCII, or is a `k`.
pub open spec fn shows_outside(s: Seq<char>) -> bool {
    exists|i: int| 0 <= i < s.len() && (#[trigger] s[i] > '\u{7f}' || s[i] == 'k')
}

/// `str::to_lowercase`: the Unicode lower case of a string, which on an
/// ASCII string is its ASCII lower case. The one character outside ASCII
/// that Unicode gives a lower case within ASCII is the Kelvin sign, which
/// becomes a `k`; of every other one a character outside ASCII is left.
#[verifier::external_body]
pub(crate) fn to_lowercase(s: &str) -> (r: String)
    ensures
        r@ == lowercase(s@),
        is_ascii_chars(s@) ==> r@ == ascii_lowercase(s@),
        !is_ascii_chars(s@) ==> shows_outside(r@),
{
    s.to_lowercase()
}

/// `str::to_uppercase`: the Unicode upper case of a string, which on an
/// ASCII string is its ASCII upper case.
#[verifier::external_body]
pub(crate) fn to_uppercase(s: &str) -> (r: String)
    ensures
        r@ == uppercase(s@),
        is_ascii_chars(s@) ==> r@ == ascii_uppercase(s@),
{
    s.to_uppercase()
}

/// A string in lower case. Outside ASCII it is Unicode's, in which the string
/// still shows that it is.
pub open spec fn folded(s: Seq<char>) -> Seq<char> {
    if is_ascii_chars(s) {
        ascii_lowercase(s)
    } else if shows_outside(lowercase(s)) {
        lowercase(s)
    } else {
        s
    }
}

proof fn lemma_not_below(c: char)
    ensures
        '\0' <= c,
{
}

/// A string outside ASCII shows that it is in lower case too.
pub proof fn lemma_folded_shows_outside(s: Seq<char>)
    requires
        !is_ascii_chars(s),
    ensures
        shows_outside(folded(s)),
{
    if !shows_outside(lowercase(s)) {
        let i = choose|i: int| 0 <= i < s.len() && !('\0' <= #[trigger] s[i] <= '\u{7f}');
        lemma_not_below(s[i]);
        assert(s[i] > '\u{7f}');
    }
}

/// A string in upper case.
pub open spec fn raised(s: Seq<char>) -> Seq<char> {
    if is_ascii_chars(s) {
        ascii_uppercase(s)
    } else {
        uppercase(s)
    }
}

/// A string in lower case.
pub fn fold(s: &str) -> (r: String)
    ensures
        r@ == folded(s@),
{
    to_lowercase(s)
}

/// An optional text.
pub open spec fn opt_chars(s: Option<&str>) -> Option<Seq<char>> {
    match s {
        Some(c) => Some(c@),
        None => None,
    }
}

/// A string in upper case.
pub fn raise(s: &str) -> (r: String)
    ensures
        r@ == raised(s@),
{
    to_uppercase(s)
}

/// The characters of a string, in order.
pub fn chars_of(s: &str) -> (r: Vec<char>)
    ensures
        r@ == s@,
{
    let mut out: Vec<char> = Vec::new();
    for c in it: s.chars()
        invariant
            out@ == it.seq().take(it.index()),
            it.seq() == s@,
    {
        out.push(c);
    }
    out
}

/// The string made of the given characters.
pub fn string_of(chars: &[char]) -> (r: String)
    ensures
        r@ == chars@,
{
    let mut out = String::new();
    let mut i: usize = 0;
    while i < chars.len()
        invariant
            i <= chars@.len(),
            out@ == chars@.take(i as int),
        decreases chars@.len() - i,
    {
        push_char(&mut out, chars[i]);
        i += 1;
    }
    assert(chars@.take(i as int) =~= chars@);
    out
}

/// Whether two byte strings are equal.
pub fn bytes_eq(a: &[u8], b: &[u8]) -> (r: bool)
    ensures
        r == (a@ == b@),
{
    if a.len() != b.len() {
        return false;
    }
    let mut i: usize = 0;
    while i < a.len()
        invariant
            i <= a@.len(),
            a@.len() == b@.len(),
            forall|k: int| 0 <= k < i ==> a@[k] == b@[k],
        decreases a@.len() - i,
    {
        if a[i] != b[i] {
            return false;
        }
        i += 1;
    }
    assert(a@ =~= b@);
    true
}

/// Whether two strings are equal.
pub fn str_eq(a: &str, b: &str) -> (r: bool)
    ensures
        r == (a@ == b@),
{
    let r = bytes_eq(a.as_bytes(), b.as_bytes());
    proof {
        encode_utf8_decode_utf8(a@);
        encode_utf8_decode_utf8(b@);
    }
    r
}

/// Whether two character strings are equal.
pub fn chars_eq(a: &[char], b: &[char]) -> (r: bool)
    ensures
        r == (a@ == b@),
{
    if a.len() != b.len() {
        return false;
    }
    let mut i: usize = 0;
    while i < a.len()
        invariant
            i <= a@.len(),
            a@.len() == b@.len(),
            forall|k: int| 0 <= k < i ==> a@[k] == b@[k],
        decreases a@.len() - i,
    {
        if a[i] != b[i] {
            return false;
        }
        i += 1;
    }
    assert(a@ =~= b@);
    true
}

// ---------------------------------------------------------------------------
// Searching
// ---------------------------------------------------------------------------

/// `needle` stands in `s` at position `i`.
pub open spec fn occurs_at<A>(s: Seq<A>, needle: Seq<A>, i: int) -> bool {
    0 <= i && i + needle.len() <= s.len() && s.subrange(i, i + needle.len()) == needle
}

/// `needle` stands somewhere in `s`.
pub open spec fn contains_text(s: Seq<char>, needle: Seq<char>) -> bool {
    exists|i: int| occurs_at(s, needle, i)
}

/// `s` begins with `prefix`.
pub open spec fn has_prefix(s: Seq<char>, prefix: Seq<char>) -> bool {
    prefix.len() <= s.len() && s.take(prefix.len() as int) == prefix
}

/// `s` ends with `suffix`.
pub open spec fn has_suffix(s: Seq<char>, suffix: Seq<char>) -> bool {
    suffix.len() <= s.len() && s.skip(s.len() - suffix.len()) == suffix
}

/// The position of the first `c` in `s`, or the length of `s` without one.
pub open spec fn first_index(s: Seq<char>, c: char) -> int
    decreases s.len(),
{
    if s.len() == 0 || s[0] == c {
        0
    } else {
        1 + first_index(s.drop_first(), c)
    }
}

/// The position of the last `c` in `s`, or -1 without one.
pub open spec fn last_index(s: Seq<char>, c: char) -> int
    decreases s.len(),
{
    if s.len() == 0 {
        -1
    } else if s.last() == c {
        s.len() - 1
    } else {
        last_index(s.drop_last(), c)
    }
}

/// What the first index is: no `c` before it, and `c` at it if it is inside.
pub proof fn lemma_first_index(s: Seq<char>, c: char)
    ensures
        0 <= first_index(s, c) <= s.len(),
        forall|k: int| 0 <= k < first_index(s, c) ==> s[k] != c,
        first_index(s, c) < s.len() ==> s[first_index(s, c)] == c,
    decreases s.len(),
{
    if s.len() > 0 && s[0] != c {
        lemma_first_index(s.drop_first(), c);
        assert forall|k: int| 0 <= k < first_index(s, c) implies s[k] != c by {
            if k > 0 {
                assert(s[k] == s.drop_first()[k - 1]);
            }
        }
    }
}

/// An index with `c` at it (or the end) and none before it is the first index.
pub proof fn lemma_first_index_unique(s: Seq<char>, c: char, i: int)
    requires
        0 <= i <= s.len(),
        forall|k: int| 0 <= k < i ==> s[k] != c,
        i < s.len() ==> s[i] == c,
    ensures
        first_index(s, c) == i,
{
    lemma_first_index(s, c);
    let j = first_index(s, c);
    if j < i {
        assert(s[j] != c);
    } else if i < j {
        assert(s[i] != c);
    }
}

/// What the last index is: no `c` behind it, and `c` at it if there is one.
pub proof fn lemma_last_index(s: Seq<char>, c: char)
    ensures
        -1 <= last_index(s, c) < s.len(),
        forall|k: int| last_index(s, c) < k < s.len() ==> s[k] != c,
        last_index(s, c) >= 0 ==> s[last_index(s, c)] == c,
    decreases s.len(),
{
    if s.len() > 0 && s.last() != c {
        lemma_last_index(s.drop_last(), c);
        assert forall|k: int| last_index(s, c) < k < s.len() implies s[k] != c by {
            if k < s.len() - 1 {
                assert(s[k] == s.drop_last()[k]);
            }
        }
    }
}

/// An index with `c` at it (or -1) and none behind it is the last index.
pub proof fn lemma_last_index_unique(s: Seq<char>, c: char, i: int)
    requires
        -1 <= i < s.len(),
        forall|k: int| i < k < s.len() ==> s[k] != c,
        i >= 0 ==> s[i] == c,
    ensures
        last_index(s, c) == i,
{
    lemma_last_index(s, c);
    let j = last_index(s, c);
    if j > i {
        assert(s[j] != c);
    } else if i > j {
        assert(s[i] != c);
    }
}

/// The first position of a character, or the length of the string.
pub fn find_char(s: &[char], c: char) -> (r: usize)
    ensures
        r == first_index(s@, c),
        r <= s@.len(),
        forall|k: int| 0 <= k < r ==> s@[k] != c,
        r < s@.len() ==> s@[r as int] == c,
{
    let mut i: usize = 0;
    while i < s.len()
        invariant
            i <= s@.len(),
            forall|k: int| 0 <= k < i ==> s@[k] != c,
        decreases s@.len() - i,
    {
        if s[i] == c {
            proof {
                lemma_first_index_unique(s@, c, i as int);
            }
            return i;
        }
        i += 1;
    }
    proof {
        lemma_first_index_unique(s@, c, i as int);
    }
    i
}

/// The last position of a character, if it occurs.
pub fn rfind_char(s: &[char], c: char) -> (r: Option<usize>)
    ensures
        r matches Some(i) ==> i == last_index(s@, c) && i < s@.len() && s@[i as int] == c,
        r is None ==> last_index(s@, c) == -1,
{
    let mut i: usize = s.len();
    while i > 0
        invariant
            i <= s@.len(),
            forall|k: int| i <= k < s@.len() ==> s@[k] != c,
        decreases i,
    {
        i -= 1;
        if s[i] == c {
            proof {
                lemma_last_index_unique(s@, c, i as int);
            }
            return Some(i);
        }
    }
    proof {
        lemma_last_index_unique(s@, c, -1);
    }
    None
}

/// Whether `needle` stands in `s` at `i`.
fn matches_at(s: &[char], needle: &[char], i: usize) -> (r: bool)
    requires
        i + needle@.len() <= s@.len(),
    ensures
        r == occurs_at(s@, needle@, i as int),
{
    assert(s.len() == s@.len());
    let part = vstd::slice::slice_subrange(s, i, i + needle.len());
    chars_eq(part, needle)
}

/// Whether a string contains another.
pub fn contains(s: &[char], needle: &[char]) -> (r: bool)
    ensures
        r == contains_text(s@, needle@),
{
    if needle.len() > s.len() {
        return false;
    }
    let last: usize = s.len() - needle.len();
    let mut i: usize = 0;
    while i < last
        invariant
            i <= last,
            last + needle@.len() == s@.len(),
            forall|k: int| 0 <= k < i ==> !occurs_at(s@, needle@, k),
        decreases last - i,
    {
        if matches_at(s, needle, i) {
            return true;
        }
        i += 1;
    }
    matches_at(s, needle, last)
}

/// Whether a string begins with another.
pub fn starts_with(s: &[char], prefix: &[char]) -> (r: bool)
    ensures
        r == has_prefix(s@, prefix@),
{
    if prefix.len() > s.len() {
        return false;
    }
    let head = vstd::slice::slice_subrange(s, 0, prefix.len());
    assert(head@ =~= s@.take(prefix@.len() as int));
    chars_eq(head, prefix)
}

/// Whether a string ends with another.
pub fn ends_with(s: &[char], suffix: &[char]) -> (r: bool)
    ensures
        r == has_suffix(s@, suffix@),
{
    if suffix.len() > s.len() {
        return false;
    }
    let tail = vstd::slice::slice_subrange(s, s.len() - suffix.len(), s.len());
    assert(tail@ =~= s@.skip(s@.len() - suffix@.len()));
    chars_eq(tail, suffix)
}

/// Whether a text contains a literal.
pub fn contains_str(s: &[char], needle: &str) -> (r: bool)
    ensures
        r == contains_text(s@, needle@),
{
    let n = chars_of(needle);
    contains(s, n.as_slice())
}

// ---------------------------------------------------------------------------
// Trimming
// ---------------------------------------------------------------------------

/// `s` without the characters at its start that satisfy `f`.
pub open spec fn drop_start(s: Seq<char>, f: spec_fn(char) -> bool) -> Seq<char>
    decreases s.len(),
{
    if s.len() > 0 && f(s[0]) {
        drop_start(s.drop_first(), f)
    } else {
        s
    }
}

/// `s` without the characters at its end that satisfy `f`.
pub open spec fn drop_end(s: Seq<char>, f: spec_fn(char) -> bool) -> Seq<char>
    decreases s.len(),
{
    if s.len() > 0 && f(s.last()) {
        drop_end(s.drop_last(), f)
    } else {
        s
    }
}

/// `s` without white space at either end.
pub open spec fn trimmed(s: Seq<char>) -> Seq<char> {
    drop_end(drop_start(s, |c: char| is_space(c)), |c: char| is_space(c))
}

/// One of the square brackets.
pub open spec fn is_bracket(c: char) -> bool {
    c == '[' || c == ']'
}

/// `s` without square brackets at either end.
pub open spec fn unbracketed(s: Seq<char>) -> Seq<char> {
    drop_end(drop_start(s, |c: char| is_bracket(c)), |c: char| is_bracket(c))
}

/// Dropping at the start yields a tail of the string.
pub proof fn lemma_drop_start(s: Seq<char>, f: spec_fn(char) -> bool, i: int)
    requires
        0 <= i <= s.len(),
        forall|k: int| 0 <= k < i ==> f(s[k]),
        i < s.len() ==> !f(s[i]),
    ensures
        drop_start(s, f) == s.skip(i),
    decreases i,
{
    if i > 0 {
        assert(f(s[0]));
        let t = s.drop_first();
        assert forall|k: int| 0 <= k < i - 1 implies f(t[k]) by {
            assert(t[k] == s[k + 1]);
        }
        lemma_drop_start(t, f, i - 1);
        assert(t.skip(i - 1) =~= s.skip(i));
    } else {
        assert(s.skip(0) =~= s);
    }
}

/// Dropping at the end yields a head of the string.
pub proof fn lemma_drop_end(s: Seq<char>, f: spec_fn(char) -> bool, j: int)
    requires
        0 <= j <= s.len(),
        forall|k: int| j <= k < s.len() ==> f(s[k]),
        j > 0 ==> !f(s[j - 1]),
    ensures
        drop_end(s, f) == s.take(j),
    decreases s.len() - j,
{
    if j < s.len() {
        assert(f(s.last()));
        let t = s.drop_last();
        lemma_drop_end(t, f, j);
        assert(t.take(j) =~= s.take(j));
    } else {
        assert(s.take(j) =~= s);
    }
}

/// A string without white space at either end.
pub fn trim(s: &[char]) -> (r: &[char])
    ensures
        r@ == trimmed(s@),
{
    let mut i: usize = 0;
    while i < s.len() && char_is_space(s[i])
        invariant
            i <= s@.len(),
            forall|k: int| 0 <= k < i ==> is_space(s@[k]),
        decreases s@.len() - i,
    {
        i += 1;
    }
    let ghost f = |c: char| is_space(c);
    proof {
        lemma_drop_start(s@, f, i as int);
    }
    let t = vstd::slice::slice_subrange(s, i, s.len());
    assert(t@ =~= s@.skip(i as int));
    let mut j: usize = t.len();
    while j > 0 && char_is_space(t[j - 1])
        invariant
            j <= t@.len(),
            forall|k: int| j <= k < t@.len() ==> is_space(t@[k]),
        decreases j,
    {
        j -= 1;
    }
    proof {
        lemma_drop_end(t@, f, j as int);
    }
    let r = vstd::slice::slice_subrange(t, 0, j);
    assert(r@ =~= t@.take(j as int));
    r
}

/// A string without square brackets at either end.
pub fn trim_brackets(s: &[char]) -> (r: &[char])
    ensures
        r@ == unbracketed(s@),
{
    let mut i: usize = 0;
    while i < s.len() && (s[i] == '[' || s[i] == ']')
        invariant
            i <= s@.len(),
            forall|k: int| 0 <= k < i ==> is_bracket(s@[k]),
        decreases s@.len() - i,
    {
        i += 1;
    }
    let ghost f = |c: char| is_bracket(c);
    proof {
        lemma_drop_start(s@, f, i as int);
    }
    let t = vstd::slice::slice_subrange(s, i, s.len());
    assert(t@ =~= s@.skip(i as int));
    let mut j: usize = t.len();
    while j > 0 && (t[j - 1] == '[' || t[j - 1] == ']')
        invariant
            j <= t@.len(),
            forall|k: int| j <= k < t@.len() ==> is_bracket(t@[k]),
        decreases j,
    {
        j -= 1;
    }
    proof {
        lemma_drop_end(t@, f, j as int);
    }
    let r = vstd::slice::slice_subrange(t, 0, j);
    assert(r@ =~= t@.take(j as int));
    r
}

/// A string without the leading run of one character.
pub fn trim_start_char(s: &[char], c: char) -> (r: &[char])
    ensures
        r@ == drop_start(s@, |x: char| x == c),
{
    let mut i: usize = 0;
    while i < s.len() && s[i] == c
        invariant
            i <= s@.len(),
            forall|k: int| 0 <= k < i ==> s@[k] == c,
        decreases s@.len() - i,
    {
        i += 1;
    }
    proof {
        lemma_drop_start(s@, |x: char| x == c, i as int);
    }
    let t = vstd::slice::slice_subrange(s, i, s.len());
    assert(t@ =~= s@.skip(i as int));
    t
}

// ---------------------------------------------------------------------------
// Splitting
// ---------------------------------------------------------------------------

/// The pieces of `s` between the occurrences of `c`.
pub open spec fn split_on(s: Seq<char>, c: char) -> Seq<Seq<char>>
    decreases s.len(),
    via split_on_decreases
{
    let i = first_index(s, c);
    if i >= s.len() {
        seq![s]
    } else {
        seq![s.take(i)] + split_on(s.skip(i + 1), c)
    }
}

#[via_fn]
proof fn split_on_decreases(s: Seq<char>, c: char) {
    lemma_first_index(s, c);
}

/// The number of leading characters of `s` that are not white space.
pub open spec fn word_len(s: Seq<char>) -> int
    decreases s.len(),
{
    if s.len() == 0 || is_space(s[0]) {
        0
    } else {
        1 + word_len(s.drop_first())
    }
}

/// The words of `s`: its maximal runs of characters other than white space.
pub open spec fn words(s: Seq<char>) -> Seq<Seq<char>>
    decreases s.len(),
    via words_decreases
{
    if s.len() == 0 {
        seq![]
    } else if is_space(s[0]) {
        words(s.drop_first())
    } else {
        seq![s.take(word_len(s))] + words(s.skip(word_len(s)))
    }
}

#[via_fn]
proof fn words_decreases(s: Seq<char>) {
    if s.len() > 0 {
        lemma_word_len(s.drop_first());
    }
}

proof fn lemma_word_len(s: Seq<char>)
    ensures
        0 <= word_len(s) <= s.len(),
        forall|k: int| 0 <= k < word_len(s) ==> !is_space(s[k]),
        word_len(s) < s.len() ==> is_space(s[word_len(s)]),
    decreases s.len(),
{
    if s.len() > 0 && !is_space(s[0]) {
        lemma_word_len(s.drop_first());
        assert forall|k: int| 0 <= k < word_len(s) implies !is_space(s[k]) by {
            if k > 0 {
                assert(s[k] == s.drop_first()[k - 1]);
            }
        }
    }
}

/// A line without the carriage return at its end.
pub open spec fn strip_cr(s: Seq<char>) -> Seq<char> {
    if s.len() > 0 && s.last() == '\r' {
        s.drop_last()
    } else {
        s
    }
}

/// The lines of `s`: each ends in a line feed, with or without a carriage
/// return before it; a last line may lack its line feed.
pub open spec fn lines_of(s: Seq<char>) -> Seq<Seq<char>>
    decreases s.len(),
    via lines_decreases
{
    let i = first_index(s, '\n');
    if s.len() == 0 {
        seq![]
    } else if i >= s.len() {
        seq![s]
    } else {
        seq![strip_cr(s.take(i))] + lines_of(s.skip(i + 1))
    }
}

#[via_fn]
proof fn lines_decreases(s: Seq<char>) {
    lemma_first_index(s, '\n');
}

/// The views of a list of texts.
pub open spec fn texts(v: Seq<Vec<char>>) -> Seq<Seq<char>> {
    v.map_values(|x: Vec<char>| x@)
}

proof fn lemma_texts_push(v: Seq<Vec<char>>, x: Vec<char>)
    ensures
        texts(v.push(x)) == texts(v).push(x@),
{
    assert(texts(v.push(x)) =~= texts(v).push(x@));
}

/// A copy of a part of a text.
fn copy_range(s: &[char], i: usize, j: usize) -> (r: Vec<char>)
    requires
        i <= j <= s@.len(),
    ensures
        r@ == s@.subrange(i as int, j as int),
{
    vstd::slice::slice_to_vec(vstd::slice::slice_subrange(s, i, j))
}

/// The pieces of a text between the occurrences of a character.
pub fn split(s: &[char], c: char) -> (r: Vec<Vec<char>>)
    ensures
        texts(r@) == split_on(s@, c),
{
    let mut out: Vec<Vec<char>> = Vec::new();
    let mut i: usize = 0;
    assert(s@.skip(0) =~= s@);
    assert(texts(out@) + split_on(s@, c) =~= split_on(s@, c));
    loop
        invariant_except_break
            i <= s@.len(),
            split_on(s@, c) == texts(out@) + split_on(s@.skip(i as int), c),
        ensures
            texts(out@) == split_on(s@, c),
        decreases s@.len() - i,
    {
        let rest = vstd::slice::slice_subrange(s, i, s.len());
        assert(rest@ =~= s@.skip(i as int));
        let n: usize = find_char(rest, c);
        let piece = copy_range(rest, 0, n);
        proof {
            assert(piece@ =~= rest@.take(n as int));
            lemma_texts_push(out@, piece);
        }
        let ghost before = texts(out@);
        out.push(piece);
        if n >= rest.len() {
            proof {
                assert(rest@.take(n as int) =~= rest@);
                assert(before + seq![rest@] =~= before.push(rest@));
            }
            break;
        }
        proof {
            let tail = split_on(rest@.skip(n + 1), c);
            assert(rest@.skip(n + 1) =~= s@.skip(i + n + 1));
            assert(before + (seq![piece@] + tail) =~= before.push(piece@) + tail);
        }
        i = i + n + 1;
    }
    out
}

/// The words of a text.
pub fn split_words(s: &[char]) -> (r: Vec<Vec<char>>)
    ensures
        texts(r@) == words(s@),
{
    let mut out: Vec<Vec<char>> = Vec::new();
    let mut i: usize = 0;
    assert(s@.skip(0) =~= s@);
    while i < s.len()
        invariant
            i <= s@.len(),
            words(s@) == texts(out@) + words(s@.skip(i as int)),
        decreases s@.len() - i,
    {
        let ghost rest = s@.skip(i as int);
        if char_is_space(s[i]) {
            assert(rest.drop_first() =~= s@.skip(i + 1));
            i += 1;
        } else {
            let mut j: usize = i + 1;
            proof {
                lemma_word_len(rest);
                lemma_word_len(rest.drop_first());
            }
            while j < s.len() && !char_is_space(s[j])
                invariant
                    i < j <= s@.len(),
                    rest == s@.skip(i as int),
                    j - i <= word_len(rest) <= rest.len(),
                    forall|k: int| 0 <= k < word_len(rest) ==> !is_space(rest[k]),
                    word_len(rest) < rest.len() ==> is_space(rest[word_len(rest)]),
                decreases s@.len() - j,
            {
                proof {
                    if j - i == word_len(rest) {
                        assert(rest[j - i] == s@[j as int]);
                    }
                }
                j += 1;
            }
            let piece = copy_range(s, i, j);
            proof {
                if j - i < word_len(rest) {
                    assert(rest[j - i] == s@[j as int]);
                }
                assert(piece@ =~= rest.take(word_len(rest)));
                assert(rest.skip(word_len(rest)) =~= s@.skip(j as int));
                lemma_texts_push(out@, piece);
                let before = texts(out@);
                let tail = words(s@.skip(j as int));
                assert(before + (seq![piece@] + tail) =~= before.push(piece@) + tail);
            }
            out.push(piece);
            i = j;
        }
    }
    assert(s@.skip(i as int) =~= Seq::empty());
    assert(texts(out@) + Seq::empty() =~= texts(out@));
    out
}

/// The lines of a text.
pub fn split_lines(s: &[char]) -> (r: Vec<Vec<char>>)
    ensures
        texts(r@) == lines_of(s@),
{
    let mut out: Vec<Vec<char>> = Vec::new();
    let mut i: usize = 0;
    assert(s@.skip(0) =~= s@);
    while i < s.len()
        invariant
            i <= s@.len(),
            lines_of(s@) == texts(out@) + lines_of(s@.skip(i as int)),
        decreases s@.len() - i,
    {
        let rest = vstd::slice::slice_subrange(s, i, s.len());
        assert(rest@ =~= s@.skip(i as int));
        let n: usize = find_char(rest, '\n');
        let ghost before = texts(out@);
        if n >= rest.len() {
            let piece = copy_range(rest, 0, rest.len());
            proof {
                assert(piece@ =~= rest@);
                lemma_texts_push(out@, piece);
                assert(before + seq![rest@] =~= before.push(rest@));
                assert(s@.skip(s@.len() as int) =~= Seq::empty());
                assert(lines_of(Seq::<char>::empty()) =~= seq![]);
                assert(before.push(rest@) + Seq::<Seq<char>>::empty() =~= before.push(rest@));
            }
            out.push(piece);
            i = s.len();
        } else {
            let cut: usize = if n > 0 && rest[n - 1] == '\r' { n - 1 } else { n };
            let piece = copy_range(rest, 0, cut);
            proof {
                assert(piece@ =~= strip_cr(rest@.take(n as int)));
                lemma_texts_push(out@, piece);
                let tail = lines_of(rest@.skip(n + 1));
                assert(rest@.skip(n + 1) =~= s@.skip(i + n + 1));
                assert(before + (seq![piece@] + tail) =~= before.push(piece@) + tail);
            }
            out.push(piece);
            i = i + n + 1;
        }
    }
    assert(s@.skip(i as int) =~= Seq::empty());
    assert(texts(out@) + Seq::empty() =~= texts(out@));
    out
}

/// The position of the first carriage return with a line feed behind it, or
/// the length of the text.
pub open spec fn crlf_index(s: Seq<char>) -> int
    decreases s.len(),
{
    if s.len() < 2 {
        s.len() as int
    } else if s[0] == '\r' && s[1] == '\n' {
        0
    } else {
        1 + crlf_index(s.drop_first())
    }
}

proof fn lemma_crlf_index_bound(s: Seq<char>)
    ensures
        0 <= crlf_index(s) <= s.len(),
        crlf_index(s) < s.len() ==> crlf_index(s) + 1 < s.len(),
    decreases s.len(),
{
    if s.len() >= 2 && !(s[0] == '\r' && s[1] == '\n') {
        lemma_crlf_index_bound(s.drop_first());
    }
}

proof fn lemma_crlf_index(s: Seq<char>, i: int)
    requires
        0 <= i,
        i + 1 < s.len() && s[i] == '\r' && s[i + 1] == '\n' || i == s.len(),
        forall|k: int|
            0 <= k < i && k + 1 < s.len() ==> !(#[trigger] s[k] == '\r' && s[k + 1] == '\n'),
    ensures
        crlf_index(s) == i,
    decreases i,
{
    if i > 0 && s.len() >= 2 {
        let t = s.drop_first();
        assert(!(s[0] == '\r' && s[1] == '\n'));
        assert forall|k: int| 0 <= k < i - 1 && k + 1 < t.len() implies !(#[trigger] t[k] == '\r'
            && t[k + 1] == '\n') by {
            assert(t[k] == s[k + 1]);
            assert(t[k + 1] == s[k + 2]);
        }
        lemma_crlf_index(t, i - 1);
    }
}

/// The pieces of a text between its line ends of carriage return and line
/// feed.
pub open spec fn split_on_crlf(s: Seq<char>) -> Seq<Seq<char>>
    decreases s.len(),
    via split_on_crlf_decreases
{
    let i = crlf_index(s);
    if i >= s.len() {
        seq![s]
    } else {
        seq![s.take(i)] + split_on_crlf(s.skip(i + 2))
    }
}

#[via_fn]
proof fn split_on_crlf_decreases(s: Seq<char>) {
    lemma_crlf_index_bound(s);
}

/// The position of the first carriage return with a line feed behind it, or
/// the length of the text.
fn find_crlf(s: &[char]) -> (r: usize)
    ensures
        r == crlf_index(s@),
        r <= s@.len(),
        r < s@.len() ==> r + 1 < s@.len(),
{
    let n: usize = s.len();
    let mut i: usize = 0;
    while i < n
        invariant
            i <= n,
            n == s@.len(),
            forall|k: int|
                0 <= k < i && k + 1 < s@.len() ==> !(#[trigger] s@[k] == '\r' && s@[k + 1]
                    == '\n'),
        decreases n - i,
    {
        if i + 1 < n && s[i] == '\r' && s[i + 1] == '\n' {
            proof {
                lemma_crlf_index(s@, i as int);
            }
            return i;
        }
        i += 1;
    }
    proof {
        lemma_crlf_index(s@, n as int);
    }
    n
}

/// The pieces of a text between its line ends of carriage return and line
/// feed.
pub fn split_crlf(s: &[char]) -> (r: Vec<Vec<char>>)
    ensures
        texts(r@) == split_on_crlf(s@),
        r@.len() > 0,
{
    let mut out: Vec<Vec<char>> = Vec::new();
    let mut i: usize = 0;
    assert(s@.skip(0) =~= s@);
    assert(texts(out@) + split_on_crlf(s@) =~= split_on_crlf(s@));
    loop
        invariant_except_break
            i <= s@.len(),
            split_on_crlf(s@) == texts(out@) + split_on_crlf(s@.skip(i as int)),
        ensures
            texts(out@) == split_on_crlf(s@),
            out@.len() > 0,
        decreases s@.len() - i,
    {
        let rest = vstd::slice::slice_subrange(s, i, s.len());
        assert(rest@ =~= s@.skip(i as int));
        let n: usize = find_crlf(rest);
        let piece = copy_range(rest, 0, n);
        proof {
            assert(piece@ =~= rest@.take(n as int));
            lemma_texts_push(out@, piece);
        }
        let ghost before = texts(out@);
        out.push(piece);
        if n >= rest.len() {
            proof {
                assert(rest@.take(n as int) =~= rest@);
                assert(before + seq![rest@] =~= before.push(rest@));
            }
            break;
        }
        proof {
            let tail = split_on_crlf(rest@.skip(n + 2));
            assert(rest@.skip(n + 2) =~= s@.skip(i + n + 2));
            assert(before + (seq![piece@] + tail) =~= before.push(piece@) + tail);
        }
        i = i + n + 2;
    }
    out
}

// ---------------------------------------------------------------------------
// Case and encoding
// ---------------------------------------------------------------------------

/// Two strings differ at most in the case of ASCII letters.
pub open spec fn same_ignoring_case(a: Seq<char>, b: Seq<char>) -> bool {
    ascii_lowercase(a) == ascii_lowercase(b)
}

/// One ASCII letter in lower case; any other character unchanged.
pub fn lower_char(c: char) -> (r: char)
    ensures
        r == ascii_lower(c),
{
    if 'A' <= c && c <= 'Z' {
        let b: u8 = c as u8;
        (b + 32) as char
    } else {
        c
    }
}

/// Whether two strings differ at most in the case of ASCII letters.
pub fn eq_ignore_case(a: &[char], b: &[char]) -> (r: bool)
    ensures
        r == same_ignoring_case(a@, b@),
{
    if a.len() != b.len() {
        assert(ascii_lowercase(a@).len() != ascii_lowercase(b@).len());
        return false;
    }
    let mut i: usize = 0;
    while i < a.len()
        invariant
            i <= a@.len(),
            a@.len() == b@.len(),
            forall|k: int| 0 <= k < i ==> ascii_lower(a@[k]) == ascii_lower(b@[k]),
        decreases a@.len() - i,
    {
        if lower_char(a[i]) != lower_char(b[i]) {
            assert(ascii_lowercase(a@)[i as int] != ascii_lowercase(b@)[i as int]);
            return false;
        }
        i += 1;
    }
    assert(ascii_lowercase(a@) =~= ascii_lowercase(b@));
    true
}

/// Whether a text and a literal differ at most in the case of ASCII letters.
pub fn eq_ignore_case_str(a: &[char], b: &str) -> (r: bool)
    ensures
        r == same_ignoring_case(a@, b@),
{
    let c = chars_of(b);
    eq_ignore_case(a, c.as_slice())
}

/// What `String::from_utf8_lossy` makes of bytes that are not valid UTF-8.
pub uninterp spec fn mended_text(bytes: Seq<u8>) -> Seq<char>;

/// The text that bytes encode, with what is not UTF-8 replaced.
pub open spec fn lossy_text(bytes: Seq<u8>) -> Seq<char> {
    if valid_utf8(bytes) {
        decode_utf8(bytes)
    } else {
        mended_text(bytes)
    }
}

/// `String::from_utf8_lossy`: the text that the bytes encode where they are
/// valid UTF-8, and otherwise one that depends on the bytes alone.
#[verifier::external_body]
pub(crate) fn utf8_lossy(bytes: &[u8]) -> (r: String)
    ensures
        valid_utf8(bytes@) ==> r@ == decode_utf8(bytes@),
        !valid_utf8(bytes@) ==> r@ == mended_text(bytes@),
{
    String::from_utf8_lossy(bytes).into_owned()
}

/// `std::str::from_utf8`: the text that the bytes encode, if they are valid
/// UTF-8.
#[verifier::external_body]
pub(crate) fn utf8_text(bytes: &[u8]) -> (r: Option<String>)
    ensures
        r is Some == valid_utf8(bytes@),
        r matches Some(s) ==> s@ == decode_utf8(bytes@),
{
    std::str::from_utf8(bytes).ok().map(String::from)
}

/// The bytes that encode a text in UTF-8.
pub fn utf8_bytes(chars: &[char]) -> (r: Vec<u8>)
    ensures
        r@ == encode_utf8(chars@),
{
    let s = string_of(chars);
    vstd::slice::slice_to_vec(s.as_str().as_bytes())
}

// ---------------------------------------------------------------------------
// Numbers
// ---------------------------------------------------------------------------

/// The value of a digit in bases up to sixteen, if the character is one.
pub open spec fn digit_value(c: char) -> Option<nat> {
    if '0' <= c <= '9' {
        Some((c as u32 - '0' as u32) as nat)
    } else if 'a' <= c <= 'f' {
        Some((c as u32 - 'a' as u32 + 10) as nat)
    } else if 'A' <= c <= 'F' {
        Some((c as u32 - 'A' as u32 + 10) as nat)
    } else {
        None
    }
}

/// Every character of `s` is a digit in the given base.
pub open spec fn all_digits(s: Seq<char>, base: nat) -> bool {
    forall|k: int| 0 <= k < s.len() ==> #[trigger] digit_value(s[k]) is Some && digit_value(s[k])->0
        < base
}

/// The number that a string of digits writes in the given base.
pub open spec fn digits_value(s: Seq<char>, base: nat) -> nat
    decreases s.len(),
{
    if s.len() == 0 {
        0
    } else {
        digits_value(s.drop_last(), base) * base + digit_value(s.last()).unwrap_or(0)
    }
}

/// The digits of a numeral: the text without a leading plus sign.
pub open spec fn unsigned_digits(s: Seq<char>) -> Seq<char> {
    if s.len() > 0 && s[0] == '+' {
        s.drop_first()
    } else {
        s
    }
}

/// What a text denotes as an unsigned numeral of at most `max`: digits of the
/// base, at least one, with or without a leading plus sign.
pub open spec fn parsed_uint(s: Seq<char>, base: nat, max: nat) -> Option<nat> {
    let d = unsigned_digits(s);
    if d.len() > 0 && all_digits(d, base) && digits_value(d, base) <= max {
        Some(digits_value(d, base))
    } else {
        None
    }
}

/// The value of a digit.
pub fn digit(c: char) -> (r: Option<u32>)
    ensures
        r is Some == digit_value(c) is Some,
        r matches Some(v) ==> digit_value(c) == Some(v as nat) && v < 16,
{
    if '0' <= c && c <= '9' {
        Some(c as u32 - '0' as u32)
    } else if 'a' <= c && c <= 'f' {
        Some(c as u32 - 'a' as u32 + 10)
    } else if 'A' <= c && c <= 'F' {
        Some(c as u32 - 'A' as u32 + 10)
    } else {
        None
    }
}

proof fn lemma_digits_value_prefix(s: Seq<char>, base: nat, i: int)
    requires
        0 <= i < s.len(),
    ensures
        digits_value(s.take(i + 1), base) == digits_value(s.take(i), base) * base + digit_value(
            s[i],
        ).unwrap_or(0),
{
    assert(s.take(i + 1).drop_last() =~= s.take(i));
    assert(s.take(i + 1).last() == s[i]);
}

proof fn lemma_digits_value_grows(s: Seq<char>, base: nat, i: int, j: int)
    requires
        0 <= i <= j <= s.len(),
        base >= 1,
    ensures
        digits_value(s.take(i), base) <= digits_value(s.take(j), base),
    decreases j - i,
{
    if i < j {
        lemma_digits_value_grows(s, base, i, j - 1);
        lemma_digits_value_prefix(s, base, j - 1);
        let v = digits_value(s.take(j - 1), base);
        assert(v <= v * base) by (nonlinear_arith)
            requires
                base >= 1,
        ;
    }
}

/// The number that a text denotes in the given base, if it is a numeral of at
/// most `max`.
pub fn parse_uint(s: &[char], base: u32, max: u64) -> (r: Option<u64>)
    requires
        2 <= base <= 16,
    ensures
        r is Some == parsed_uint(s@, base as nat, max as nat) is Some,
        r matches Some(v) ==> parsed_uint(s@, base as nat, max as nat) == Some(v as nat) && v
            <= max,
{
    let mut i: usize = 0;
    if s.len() > 0 && s[0] == '+' {
        i = 1;
    }
    let d = vstd::slice::slice_subrange(s, i, s.len());
    assert(d@ =~= unsigned_digits(s@));
    if d.len() == 0 {
        return None;
    }
    let mut acc: u128 = 0;
    let mut j: usize = 0;
    while j < d.len()
        invariant
            j <= d@.len(),
            2 <= base <= 16,
            acc <= max,
            acc == digits_value(d@.take(j as int), base as nat),
            d@ == unsigned_digits(s@),
            forall|k: int|
                0 <= k < j ==> #[trigger] digit_value(d@[k]) is Some && digit_value(d@[k])->0
                    < base,
        decreases d@.len() - j,
    {
        match digit(d[j]) {
            None => {
                assert(digit_value(d@[j as int]) is None);
                return None;
            },
            Some(v) => {
                if v >= base {
                    assert(digit_value(d@[j as int])->0 >= base);
                    return None;
                }
                proof {
                    lemma_digits_value_prefix(d@, base as nat, j as int);
                    assert(acc * base <= 0xffff_ffff_ffff_ffff * 16) by (nonlinear_arith)
                        requires
                            acc <= 0xffff_ffff_ffff_ffff,
                            base <= 16,
                    ;
                }
                acc = acc * base as u128 + v as u128;
                if acc > max as u128 {
                    proof {
                        lemma_digits_value_grows(d@, base as nat, j + 1, d@.len() as int);
                        assert(d@.take(d@.len() as int) =~= d@);
                    }
                    return None;
                }
                j += 1;
            },
        }
    }
    assert(d@.take(j as int) =~= d@);
    Some(acc as u64)
}

/// The decimal digit of a value below ten.
pub open spec fn decimal_digit(v: nat) -> char {
    (v + '0' as u32) as char
}

/// The decimal numeral of a number, without leading zeros.
pub open spec fn decimal(n: nat) -> Seq<char>
    decreases n,
{
    if n < 10 {
        seq![decimal_digit(n)]
    } else {
        decimal(n / 10).push(decimal_digit(n % 10))
    }
}

/// A decimal numeral is made of digits and reads as its number.
pub proof fn lemma_decimal(n: nat)
    ensures
        decimal(n).len() > 0,
        forall|k: int| 0 <= k < decimal(n).len() ==> '0' <= #[trigger] decimal(n)[k] <= '9',
        all_digits(decimal(n), 10),
        digits_value(decimal(n), 10) == n,
    decreases n,
{
    let d = decimal(n);
    if n >= 10 {
        lemma_decimal(n / 10);
        let rest = decimal(n / 10);
        assert(d.drop_last() =~= rest);
        assert forall|k: int| 0 <= k < d.len() implies '0' <= #[trigger] d[k] <= '9' by {
            if k < rest.len() {
                assert(d[k] == rest[k]);
            }
        }
    } else {
        assert(d.drop_last() =~= seq![]);
        assert(digits_value(d.drop_last(), 10) == 0);
    }
    assert(digit_value(d.last()) == Some((n % 10) as nat));
    assert forall|k: int| 0 <= k < d.len() implies #[trigger] digit_value(d[k]) is Some
        && digit_value(d[k])->0 < 10 by {
        assert('0' <= d[k] <= '9');
    }
}

/// The pieces of two texts with the sign between them are those of the one and
/// those of the other.
pub proof fn lemma_split_joined(a: Seq<char>, b: Seq<char>, c: char)
    ensures
        split_on(a + seq![c] + b, c) == split_on(a, c) + split_on(b, c),
    decreases a.len(),
{
    let s = a + seq![c] + b;
    let i = first_index(a, c);
    lemma_first_index(a, c);
    if i < a.len() {
        lemma_first_index_unique(s, c, i);
        lemma_split_joined(a.skip(i + 1), b, c);
        assert(s.take(i) =~= a.take(i));
        assert(s.skip(i + 1) =~= a.skip(i + 1) + seq![c] + b);
        assert(split_on(s, c) =~= split_on(a, c) + split_on(b, c));
    } else {
        lemma_first_index_unique(s, c, a.len() as int);
        assert(s.take(a.len() as int) =~= a);
        assert(s.skip((a.len() + 1) as int) =~= b);
    }
}

/// A text without the sign is its only piece.
pub proof fn lemma_split_whole(s: Seq<char>, c: char)
    requires
        forall|k: int| 0 <= k < s.len() ==> s[k] != c,
    ensures
        split_on(s, c) == seq![s],
{
    lemma_first_index_unique(s, c, s.len() as int);
}

/// What the first line end is: none before it, and one at it if it is inside.
pub proof fn lemma_first_crlf(s: Seq<char>)
    ensures
        0 <= crlf_index(s) <= s.len(),
        crlf_index(s) < s.len() ==> crlf_index(s) + 2 <= s.len() && s[crlf_index(s)] == '\r' && s[
        crlf_index(s) + 1] == '\n',
        forall|k: int|
            0 <= k < crlf_index(s) && k + 1 < s.len() ==> !(#[trigger] s[k] == '\r' && s[k + 1]
                == '\n'),
    decreases s.len(),
{
    if s.len() >= 2 && !(s[0] == '\r' && s[1] == '\n') {
        let t = s.drop_first();
        lemma_first_crlf(t);
        assert forall|k: int| 0 <= k < crlf_index(s) && k + 1 < s.len() implies !(#[trigger] s[k]
            == '\r' && s[k + 1] == '\n') by {
            if k > 0 {
                assert(t[k - 1] == s[k]);
                assert(t[k] == s[k + 1]);
            }
        }
    }
}

/// Trimming leaves no white space at either end.
pub proof fn lemma_trimmed_ends(s: Seq<char>)
    ensures
        trimmed(s).len() > 0 ==> !is_space(trimmed(s)[0]) && !is_space(trimmed(s).last()),
{
    let f = |c: char| is_space(c);
    lemma_drop_start_first(s, f);
    lemma_drop_end_last(drop_start(s, f), f);
}

proof fn lemma_drop_start_first(s: Seq<char>, f: spec_fn(char) -> bool)
    ensures
        drop_start(s, f).len() > 0 ==> !f(drop_start(s, f)[0]),
    decreases s.len(),
{
    if s.len() > 0 && f(s[0]) {
        lemma_drop_start_first(s.drop_first(), f);
    }
}

proof fn lemma_drop_end_last(s: Seq<char>, f: spec_fn(char) -> bool)
    ensures
        drop_end(s, f).len() > 0 ==> !f(drop_end(s, f).last()) && drop_end(s, f)[0] == s[0],
        drop_end(s, f).len() <= s.len(),
    decreases s.len(),
{
    if s.len() > 0 && f(s.last()) {
        lemma_drop_end_last(s.drop_last(), f);
    }
}

/// The decimal numeral of a number.
pub fn decimal_text(n: u64) -> (r: Vec<char>)
    ensures
        r@ == decimal(n as nat),
    decreases n,
{
    let mut out: Vec<char> = if n >= 10 { decimal_text(n / 10) } else { Vec::new() };
    let d: u8 = (n % 10) as u8;
    let c: char = (d + 48) as char;
    assert(c == decimal_digit((n % 10) as nat));
    out.push(c);
    assert(out@ =~= decimal(n as nat));
    out
}

/// Appends a text to another.
pub fn append_chars(out: &mut Vec<char>, s: &[char])
    ensures
        final(out)@ == old(out)@ + s@,
{
    let mut i: usize = 0;
    while i < s.len()
        invariant
            i <= s@.len(),
            out@ == old(out)@ + s@.take(i as int),
        decreases s@.len() - i,
    {
        out.push(s[i]);
        assert(out@ =~= old(out)@ + s@.take(i + 1));
        i += 1;
    }
    assert(s@.take(i as int) =~= s@);
}

/// Appends a literal to a text.
pub fn append_str(out: &mut Vec<char>, s: &str)
    ensures
        final(out)@ == old(out)@ + s@,
{
    let c = chars_of(s);
    append_chars(out, c.as_slice());
}

/// Appends bytes to a byte string.
pub fn append_bytes(out: &mut Vec<u8>, s: &[u8])
    ensures
        final(out)@ == old(out)@ + s@,
{
    let mut i: usize = 0;
    while i < s.len()
        invariant
            i <= s@.len(),
            out@ == old(out)@ + s@.take(i as int),
        decreases s@.len() - i,
    {
        out.push(s[i]);
        assert(out@ =~= old(out)@ + s@.take(i + 1));
        i += 1;
    }
    assert(s@.take(i as int) =~= s@);
}

/// Brackets round a text without brackets at its ends are the ones that come off.
pub proof fn lemma_no_brackets(s: Seq<char>)
    requires
        s.len() > 0 ==> !is_bracket(s[0]) && !is_bracket(s.last()),
    ensures
        unbracketed(s) == s,
        unbracketed(seq!['['] + s + seq![']']) == s,
{
    let f = |c: char| is_bracket(c);
    assert(drop_start(s, f) == s);
    let t = seq!['['] + s + seq![']'];
    if s.len() > 0 {
        assert(t.drop_first() =~= s + seq![']']);
        assert(t.drop_first()[0] == s[0]);
        assert(drop_start(t.drop_first(), f) == t.drop_first());
        assert(drop_start(t, f) == s + seq![']']);
        assert((s + seq![']']).drop_last() =~= s);
        assert(drop_end(s, f) == s);
        assert(drop_end(s + seq![']'], f) == s);
    } else {
        reveal_with_fuel(drop_start, 3);
        assert(t.drop_first() =~= seq![']']);
        assert(t.drop_first().drop_first() =~= s);
        assert(drop_start(t, f) =~= s);
    }
}

/// A word in front of white space, or of nothing, is the first of the words.
pub proof fn lemma_first_word(a: Seq<char>, b: Seq<char>)
    requires
        a.len() > 0,
        forall|i: int| 0 <= i < a.len() ==> !is_space(#[trigger] a[i]),
        b.len() > 0 ==> is_space(b[0]),
    ensures
        words(a + b) == seq![a] + words(b),
{
    let s = a + b;
    let n = word_len(s);
    lemma_word_len(s);
    if n < a.len() {
        assert(s[n] == a[n]);
    } else if n > a.len() {
        assert(s[a.len() as int] == b[0]);
    }
    assert(s[0] == a[0]);
    assert(s.take(n) =~= a);
    assert(s.skip(n) =~= b);
}

} // verus!
