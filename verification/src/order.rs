//! Lexicographic order on texts, and sorted lists of distinct texts.

use crate::text::chars_of;
use vstd::prelude::*;

verus! {

/// `a[i..]` comes strictly before `b[i..]`, comparing characters by code point;
/// this is the order of `str`, whose byte order UTF-8 keeps.
pub open spec fn lex_from(a: Seq<char>, b: Seq<char>, i: nat) -> bool
    decreases a.len() - i,
{
    if i >= a.len() {
        i < b.len()
    } else if i >= b.len() {
        false
    } else if a[i as int] != b[i as int] {
        (a[i as int] as u32) < (b[i as int] as u32)
    } else {
        lex_from(a, b, i + 1)
    }
}

/// `a` comes strictly before `b`.
pub open spec fn lex_lt(a: Seq<char>, b: Seq<char>) -> bool {
    lex_from(a, b, 0)
}

proof fn lemma_lex_irreflexive(a: Seq<char>, i: nat)
    ensures
        !lex_from(a, a, i),
    decreases a.len() - i,
{
    if i < a.len() {
        lemma_lex_irreflexive(a, i + 1);
    }
}

proof fn lemma_lex_transitive(a: Seq<char>, b: Seq<char>, c: Seq<char>, i: nat)
    requires
        lex_from(a, b, i),
        lex_from(b, c, i),
    ensures
        lex_from(a, c, i),
    decreases a.len() - i,
{
    if i < a.len() && i < b.len() && i < c.len() && a[i as int] == b[i as int] && b[i as int]
        == c[i as int] {
        lemma_lex_transitive(a, b, c, i + 1);
    }
}

proof fn lemma_lex_total(a: Seq<char>, b: Seq<char>, i: nat)
    requires
        i <= a.len(),
        i <= b.len(),
        !lex_from(a, b, i),
        !lex_from(b, a, i),
    ensures
        a.len() == b.len(),
        forall|j: int| i <= j < a.len() ==> a[j] == b[j],
    decreases a.len() - i,
{
    if i < a.len() && i < b.len() {
        if a[i as int] == b[i as int] {
            lemma_lex_total(a, b, i + 1);
        } else {
            vstd::utf8::char_u32_cast(a[i as int], a[i as int] as u32);
            vstd::utf8::char_u32_cast(b[i as int], b[i as int] as u32);
        }
    }
}

/// The order is strict and total: every two texts are equal or one comes
/// first, never both, and it is transitive.
pub proof fn lemma_lex_order(a: Seq<char>, b: Seq<char>, c: Seq<char>)
    ensures
        !lex_lt(a, a),
        lex_lt(a, b) ==> !lex_lt(b, a),
        lex_lt(a, b) || lex_lt(b, a) || a == b,
        lex_lt(a, b) && lex_lt(b, c) ==> lex_lt(a, c),
{
    lemma_lex_irreflexive(a, 0);
    if lex_lt(a, b) && lex_lt(b, a) {
        lemma_lex_transitive(a, b, a, 0);
    }
    if !lex_lt(a, b) && !lex_lt(b, a) {
        lemma_lex_total(a, b, 0);
        assert(a =~= b);
    }
    if lex_lt(a, b) && lex_lt(b, c) {
        lemma_lex_transitive(a, b, c, 0);
    }
}

/// `a` comes strictly before `b`.
pub fn lex_less(a: &[char], b: &[char]) -> (lt: bool)
    ensures
        lt == lex_lt(a@, b@),
{
    let mut i: usize = 0;
    while i < a.len() && i < b.len() && a[i] == b[i]
        invariant
            i <= a@.len(),
            i <= b@.len(),
            lex_from(a@, b@, i as nat) == lex_lt(a@, b@),
        decreases a@.len() - i,
    {
        i = i + 1;
    }
    if i >= a.len() {
        i < b.len()
    } else if i >= b.len() {
        false
    } else {
        (a[i] as u32) < (b[i] as u32)
    }
}

/// The texts of `strings`.
pub open spec fn texts(strings: Seq<String>) -> Seq<Seq<char>> {
    strings.map_values(|s: String| s@)
}

/// Each text comes strictly before the ones after it: the list is sorted and
/// holds no text twice.
pub open spec fn strictly_sorted(texts: Seq<Seq<char>>) -> bool {
    forall|i: int, j: int| 0 <= i < j < texts.len() ==> lex_lt(texts[i], texts[j])
}

/// Adds `text` to a strictly sorted list unless it is there already.
pub fn insert_sorted(list: &mut Vec<String>, text: &str)
    requires
        strictly_sorted(texts(old(list)@)),
    ensures
        strictly_sorted(texts(final(list)@)),
        forall|s: Seq<char>|
            texts(final(list)@).contains(s) <==> texts(old(list)@).contains(s) || s == text@,
{
    let ghost before = texts(list@);
    let key = chars_of(text);
    let mut p: usize = 0;
    while p < list.len() && lex_less(chars_of(list[p].as_str()).as_slice(), key.as_slice())
        invariant
            p <= list@.len(),
            before == texts(list@),
            strictly_sorted(before),
            key@ == text@,
            forall|k: int| 0 <= k < p ==> lex_lt(#[trigger] before[k], text@),
        decreases list@.len() - p,
    {
        p = p + 1;
    }
    if p < list.len() {
        let here = chars_of(list[p].as_str());
        if !lex_less(key.as_slice(), here.as_slice()) {
            proof {
                lemma_lex_order(before[p as int], text@, text@);
            }
            assert(before[p as int] == text@);
            assert forall|s: Seq<char>|
                texts(list@).contains(s) <==> before.contains(s) || s == text@ by {
                if s == text@ {
                    assert(before[p as int] == s);
                }
            }
            return;
        }
    }
    list.insert(p, text.to_owned());
    let ghost after = texts(list@);
    assert(after =~= before.insert(p as int, text@));
    assert forall|i: int, j: int| 0 <= i < j < after.len() implies lex_lt(after[i], after[j]) by {
        if j < p {
        } else if j == p {
        } else if i < p {
            lemma_lex_order(after[i], text@, after[j]);
            if j > p + 1 {
                lemma_lex_order(text@, before[p as int], after[j]);
            }
        } else if i == p {
            if j > p + 1 {
                lemma_lex_order(text@, before[p as int], after[j]);
                lemma_lex_order(before[p as int], text@, text@);
            } else {
                lemma_lex_order(before[p as int], text@, text@);
            }
        }
    }
    assert forall|s: Seq<char>| after.contains(s) <==> before.contains(s) || s == text@ by {
        if after.contains(s) {
            let k = choose|k: int| 0 <= k < after.len() && after[k] == s;
            if k < p {
                assert(before[k] == s);
            } else if k > p {
                assert(before[k - 1] == s);
            }
        }
        if before.contains(s) {
            let k = choose|k: int| 0 <= k < before.len() && before[k] == s;
            if k < p {
                assert(after[k] == s);
            } else {
                assert(after[k + 1] == s);
            }
        }
        if s == text@ {
            assert(after[p as int] == s);
        }
    }
}

} // verus!
