//! Character- and byte-level string helpers shared by the rest of the library.

use std::str::Utf8Error;
use vstd::prelude::*;
use vstd::utf8::*;

verus! {

#[verifier::external_type_specification]
#[verifier::external_body]
pub struct ExUtf8Error(Utf8Error);

/// The characters of `s`, in order.
pub fn chars_of(s: &str) -> (out: Vec<char>)
    ensures
        out@ == s@,
{
    let mut out: Vec<char> = Vec::new();
    for c in it: s.chars()
        invariant
            out@ == it.seq().take(it.index() as int),
            it.seq() == s@,
    {
        out.push(c);
    }
    out
}

/// Appends one character to `s`.
///
/// Calls `String::push`, which the standard library documents as appending
/// the character to the end of the string.
#[verifier::external_body]
pub(crate) fn push_char(s: &mut String, c: char)
    ensures
        final(s)@ == old(s)@.push(c),
{
    s.push(c);
}

/// Appends every character of `chars` to `s`.
pub fn push_chars(s: &mut String, chars: &[char])
    ensures
        final(s)@ == old(s)@ + chars@,
{
    let ghost start = s@;
    for i in 0..chars.len()
        invariant
            s@ == start + chars@.take(i as int),
    {
        push_char(s, chars[i]);
        assert(chars@.take(i + 1) == chars@.take(i as int).push(chars@[i as int]));
    }
    assert(chars@.take(chars.len() as int) == chars@);
}

/// A string holding exactly `chars`.
pub fn string_of(chars: &[char]) -> (s: String)
    ensures
        s@ == chars@,
{
    let mut s = String::new();
    push_chars(&mut s, chars);
    s
}

/// Reads `bytes` as UTF-8.
///
/// Calls `std::str::from_utf8`, which the standard library documents as
/// succeeding exactly when the slice is valid UTF-8; the contract states that,
/// and that the text then decodes from the bytes. The error value is opaque.
#[verifier::external_body]
pub(crate) fn utf8_str(bytes: &[u8]) -> (res: Result<&str, Utf8Error>)
    ensures
        res is Ok <==> valid_utf8(bytes@),
        res matches Ok(s) ==> s@ == decode_utf8(bytes@),
{
    std::str::from_utf8(bytes)
}


/// A character's code with ASCII capitals folded to lower case.
pub open spec fn fold(c: char) -> u32 {
    if 65 <= (c as u32) <= 90 {
        ((c as u32) + 32) as u32
    } else {
        c as u32
    }
}

/// The two texts are equal once ASCII letters are compared without case,
/// as `str::eq_ignore_ascii_case` compares them.
pub open spec fn same_ignoring_case(a: Seq<char>, b: Seq<char>) -> bool {
    a.len() == b.len() && forall|i: int| 0 <= i < a.len() ==> fold(a[i]) == fold(b[i])
}

fn fold_char(c: char) -> (code: u32)
    ensures
        code == fold(c),
{
    let code = c as u32;
    if 65 <= code && code <= 90 {
        code + 32
    } else {
        code
    }
}

/// Compares `a[a_from..]` with `b` without ASCII case; `a` must hold at least
/// as many characters after `a_from` as `b` has.
pub fn eq_ignore_ascii_case_at(a: &[char], a_from: usize, b: &[char]) -> (eq: bool)
    requires
        a_from + b@.len() <= a@.len(),
    ensures
        eq == same_ignoring_case(a@.subrange(a_from as int, a_from + b@.len()), b@),
        eq == forall|i: int| 0 <= i < b@.len() ==> fold(a@[a_from + i]) == fold(b@[i]),
{
    let ghost x = a@.subrange(a_from as int, a_from + b@.len());
    let n = a.len();
    for i in 0..b.len()
        invariant
            n == a@.len(),
            a_from + b@.len() <= n,
            x == a@.subrange(a_from as int, a_from + b@.len()),
            forall|j: int| 0 <= j < i ==> fold(x[j]) == fold(b@[j]),
            forall|j: int| 0 <= j < i ==> fold(a@[a_from + j]) == fold(b@[j]),
    {
        if fold_char(a[a_from + i]) != fold_char(b[i]) {
            assert(fold(x[i as int]) != fold(b@[i as int]));
            return false;
        }
        assert(x[i as int] == a@[a_from + i]);
    }
    true
}

/// `a` and `b` are equal without ASCII case.
pub fn eq_ignore_ascii_case(a: &[char], b: &[char]) -> (eq: bool)
    ensures
        eq == same_ignoring_case(a@, b@),
        eq == (a@.len() == b@.len() && forall|i: int|
            0 <= i < a@.len() ==> fold(a@[i]) == fold(b@[i])),
{
    if a.len() != b.len() {
        return false;
    }
    let eq = eq_ignore_ascii_case_at(a, 0, b);
    assert(a@.subrange(0, b@.len() as int) == a@);
    eq
}

/// Two texts are equal without ASCII case exactly when they have the same
/// length and each pair of characters in the same place is equal once ASCII
/// capitals are folded to lower case; the relation is reflexive and
/// symmetric, and a text is never equal to a longer or shorter one.
pub proof fn lemma_same_ignoring_case(a: Seq<char>, b: Seq<char>)
    ensures
        same_ignoring_case(a, b) <==> (a.len() == b.len() && forall|i: int|
            0 <= i < a.len() ==> fold(a[i]) == fold(b[i])),
        same_ignoring_case(a, a),
        same_ignoring_case(a, b) ==> same_ignoring_case(b, a),
        a.len() != b.len() ==> !same_ignoring_case(a, b),
{
}

/// Folding changes exactly the ASCII capitals, each to its lower-case letter.
pub proof fn lemma_fold(c: char)
    ensures
        'A' <= c <= 'Z' ==> fold(c) == (c as u32) + 32,
        !('A' <= c <= 'Z') ==> fold(c) == c as u32,
{
}

/// `s` ends with `suffix`.
pub open spec fn ends_with(s: Seq<char>, suffix: Seq<char>) -> bool {
    suffix.len() <= s.len() && s.subrange(s.len() - suffix.len(), s.len() as int) == suffix
}

/// `s[..end]` ends with `suffix`.
pub fn ends_with_at(s: &[char], end: usize, suffix: &[char]) -> (yes: bool)
    requires
        end <= s@.len(),
    ensures
        yes == ends_with(s@.take(end as int), suffix@),
{
    let ghost t = s@.take(end as int);
    if suffix.len() > end {
        return false;
    }
    let start = end - suffix.len();
    for i in 0..suffix.len()
        invariant
            end <= s@.len(),
            t == s@.take(end as int),
            start + suffix@.len() == end,
            forall|j: int| 0 <= j < i ==> s@[start + j] == suffix@[j],
    {
        if s[start + i] != suffix[i] {
            assert(t.subrange(t.len() - suffix@.len(), t.len() as int)[i as int] != suffix@[i as int]);
            return false;
        }
    }
    assert(t.subrange(t.len() - suffix@.len(), t.len() as int) =~= suffix@);
    true
}


/// `a` and `b` hold the same text.
pub fn text_eq(a: &str, b: &str) -> (eq: bool)
    ensures
        eq == (a@ == b@),
{
    let x = chars_of(a);
    let y = chars_of(b);
    if x.len() != y.len() {
        return false;
    }
    for i in 0..x.len()
        invariant
            x@ == a@,
            y@ == b@,
            x@.len() == y@.len(),
            forall|j: int| 0 <= j < i ==> x@[j] == y@[j],
    {
        if x[i] != y[i] {
            assert(x@[i as int] != y@[i as int]);
            return false;
        }
    }
    assert(x@ =~= y@);
    true
}

/// `text` ends with `suffix`.
pub fn text_ends_with(text: &str, suffix: &[char]) -> (yes: bool)
    ensures
        yes == ends_with(text@, suffix@),
{
    let chars = chars_of(text);
    let yes = ends_with_at(chars.as_slice(), chars.len(), suffix);
    assert(chars@.take(chars@.len() as int) == chars@);
    yes
}

} // verus!
