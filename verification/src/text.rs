//! Byte-string primitives: lexicographic order, ASCII case folding and
//! substring search. Identifiers, labels and search input are UTF-8 byte
//! strings; byte-wise lexicographic order on UTF-8 equals code-point order,
//! and case folding is applied to the ASCII letters only.

use vstd::prelude::*;

verus! {

/// Byte-wise lexicographic "less than or equal" on byte strings.
pub open spec fn lex_leq(a: Seq<u8>, b: Seq<u8>) -> bool
    decreases a.len(),
{
    if a.len() == 0 {
        true
    } else if b.len() == 0 {
        false
    } else if a.first() < b.first() {
        true
    } else if a.first() > b.first() {
        false
    } else {
        lex_leq(a.drop_first(), b.drop_first())
    }
}

/// Any two byte strings are ordered one way or the other.
pub proof fn lemma_lex_leq_total(a: Seq<u8>, b: Seq<u8>)
    ensures
        lex_leq(a, b) || lex_leq(b, a),
    decreases a.len(),
{
    if a.len() > 0 && b.len() > 0 && a.first() == b.first() {
        lemma_lex_leq_total(a.drop_first(), b.drop_first());
    }
}

/// Lexicographic order is transitive.
pub proof fn lemma_lex_leq_trans(a: Seq<u8>, b: Seq<u8>, c: Seq<u8>)
    requires
        lex_leq(a, b),
        lex_leq(b, c),
    ensures
        lex_leq(a, c),
    decreases a.len(),
{
    if a.len() > 0 && b.len() > 0 && c.len() > 0 && a.first() == b.first() && b.first()
        == c.first() {
        lemma_lex_leq_trans(a.drop_first(), b.drop_first(), c.drop_first());
    }
}

/// Compares two byte strings in lexicographic order.
pub fn lex_leq_bytes(a: &Vec<u8>, b: &Vec<u8>) -> (r: bool)
    ensures
        r == lex_leq(a@, b@),
{
    let mut i: usize = 0;
    assert(a@.skip(0) =~= a@);
    assert(b@.skip(0) =~= b@);
    loop
        invariant
            i <= a.len(),
            i <= b.len(),
            forall|k: int| 0 <= k < i ==> a@[k] == b@[k],
            lex_leq(a@, b@) == lex_leq(a@.skip(i as int), b@.skip(i as int)),
        decreases a.len() - i,
    {
        if i == a.len() {
            assert(a@.skip(i as int).len() == 0);
            return true;
        }
        if i == b.len() {
            assert(b@.skip(i as int).len() == 0);
            assert(a@.skip(i as int).len() > 0);
            return false;
        }
        let x = a[i];
        let y = b[i];
        assert(a@.skip(i as int).first() == x);
        assert(b@.skip(i as int).first() == y);
        if x < y {
            return true;
        }
        if x > y {
            return false;
        }
        assert(a@.skip(i as int).drop_first() =~= a@.skip(i + 1));
        assert(b@.skip(i as int).drop_first() =~= b@.skip(i + 1));
        i = i + 1;
    }
}

/// ASCII lower-casing of one byte: the letters `A`..`Z` map to `a`..`z`,
/// every other byte is unchanged.
pub open spec fn lower(b: u8) -> u8 {
    if 65 <= b <= 90 {
        (b + 32) as u8
    } else {
        b
    }
}

/// ASCII lower-casing of a whole byte string.
pub open spec fn lower_seq(s: Seq<u8>) -> Seq<u8> {
    s.map_values(|b: u8| lower(b))
}

/// Lower-cases a byte string.
pub fn lower_bytes(s: &Vec<u8>) -> (r: Vec<u8>)
    ensures
        r@ == lower_seq(s@),
{
    let mut r: Vec<u8> = Vec::new();
    let mut i: usize = 0;
    while i < s.len()
        invariant
            i <= s.len(),
            r@ =~= lower_seq(s@).take(i as int),
        decreases s.len() - i,
    {
        let b = s[i];
        if 65 <= b && b <= 90 {
            r.push(b + 32);
        } else {
            r.push(b);
        }
        i = i + 1;
        assert(r@ =~= lower_seq(s@).take(i as int));
    }
    assert(lower_seq(s@).take(s@.len() as int) =~= lower_seq(s@));
    r
}

/// `needle` occurs contiguously within `hay` (the empty string occurs in
/// every string).
pub open spec fn is_substring(needle: Seq<u8>, hay: Seq<u8>) -> bool {
    exists|k: int|
        0 <= k <= hay.len() - needle.len() && #[trigger] hay.subrange(k, k + needle.len())
            == needle
}

fn match_at(needle: &Vec<u8>, hay: &Vec<u8>, k: usize) -> (r: bool)
    requires
        k + needle.len() <= hay.len(),
    ensures
        r == (hay@.subrange(k as int, k + needle@.len()) == needle@),
{
    let mut j: usize = 0;
    while j < needle.len()
        invariant
            j <= needle.len(),
            k + needle.len() <= hay.len(),
            forall|t: int| 0 <= t < j ==> hay@[k + t] == needle@[t],
        decreases needle.len() - j,
    {
        if hay[k + j] != needle[j] {
            assert(hay@.subrange(k as int, k + needle@.len())[j as int] != needle@[j as int]);
            return false;
        }
        j = j + 1;
    }
    assert(hay@.subrange(k as int, k + needle@.len()) =~= needle@);
    true
}

/// Decides whether `needle` occurs contiguously within `hay`.
pub fn find_substring(needle: &Vec<u8>, hay: &Vec<u8>) -> (r: bool)
    ensures
        r == is_substring(needle@, hay@),
{
    if needle.len() > hay.len() {
        assert(!is_substring(needle@, hay@));
        return false;
    }
    if needle.len() == 0 {
        assert(is_substring(needle@, hay@)) by {
            assert(hay@.subrange(0, 0 + needle@.len() as int) =~= needle@);
        }
        return true;
    }
    let last: usize = hay.len() - needle.len();
    let mut k: usize = 0;
    while k <= last
        invariant
            needle.len() <= hay.len(),
            last == hay.len() - needle.len(),
            k <= last + 1,
            last < hay.len(),
            forall|t: int|
                0 <= t < k ==> #[trigger] hay@.subrange(t, t + needle@.len()) != needle@,
        decreases last + 1 - k,
    {
        if match_at(needle, hay, k) {
            assert(is_substring(needle@, hay@));
            return true;
        }
        k = k + 1;
    }
    assert(!is_substring(needle@, hay@));
    false
}

/// A prefix of a substring is itself a substring.
pub proof fn lemma_is_substring_prefix(needle: Seq<u8>, hay: Seq<u8>, k: int)
    requires
        0 <= k <= needle.len(),
        is_substring(needle, hay),
    ensures
        is_substring(needle.take(k), hay),
{
    let j = choose|j: int|
        0 <= j <= hay.len() - needle.len() && #[trigger] hay.subrange(j, j + needle.len())
            == needle;
    assert(hay.subrange(j, j + needle.take(k).len()) =~= needle.take(k)) by {
        assert(forall|m: int|
            0 <= m < needle.len() ==> #[trigger] needle[m] == hay.subrange(
                j,
                j + needle.len(),
            )[m]);
    }
}

/// `needle` occurs within `hay` when both are folded to ASCII lower case.
pub open spec fn contains_insensitive(needle: Seq<u8>, hay: Seq<u8>) -> bool {
    is_substring(lower_seq(needle), lower_seq(hay))
}

/// Decides case-insensitive containment, folding ASCII letters only.
pub fn find_insensitive(needle: &Vec<u8>, hay: &Vec<u8>) -> (r: bool)
    ensures
        r == contains_insensitive(needle@, hay@),
{
    let n = lower_bytes(needle);
    let h = lower_bytes(hay);
    find_substring(&n, &h)
}

/// The sequence of byte-string views of a sequence of byte vectors.
pub open spec fn byte_views(s: Seq<Vec<u8>>) -> Seq<Seq<u8>> {
    s.map_values(|v: Vec<u8>| v@)
}

/// Copies one byte string.
pub fn clone_bytes(v: &Vec<u8>) -> (r: Vec<u8>)
    ensures
        r@ == v@,
{
    let r = v.clone();
    assert(r@ =~= v@);
    r
}

/// Copies a list of byte strings.
pub fn clone_byte_list(v: &Vec<Vec<u8>>) -> (r: Vec<Vec<u8>>)
    ensures
        byte_views(r@) == byte_views(v@),
{
    let mut r: Vec<Vec<u8>> = Vec::new();
    let mut i: usize = 0;
    while i < v.len()
        invariant
            i <= v.len(),
            r.len() == i,
            forall|k: int| 0 <= k < i ==> r@[k]@ == v@[k]@,
        decreases v.len() - i,
    {
        r.push(clone_bytes(&v[i]));
        i = i + 1;
    }
    assert(byte_views(r@) =~= byte_views(v@));
    r
}

/// Copies the byte range `from..to` out of a byte string.
pub fn sub_bytes(v: &Vec<u8>, from: usize, to: usize) -> (r: Vec<u8>)
    requires
        from <= to <= v.len(),
    ensures
        r@ == v@.subrange(from as int, to as int),
{
    let mut r: Vec<u8> = Vec::new();
    let mut i: usize = from;
    while i < to
        invariant
            from <= i <= to <= v.len(),
            r@ =~= v@.subrange(from as int, i as int),
        decreases to - i,
    {
        r.push(v[i]);
        i = i + 1;
        assert(r@ =~= v@.subrange(from as int, i as int));
    }
    r
}

/// Compares two byte strings for equality.
pub fn eq_bytes(a: &Vec<u8>, b: &Vec<u8>) -> (r: bool)
    ensures
        r == (a@ == b@),
{
    if a.len() != b.len() {
        return false;
    }
    let mut i: usize = 0;
    while i < a.len()
        invariant
            a@.len() == b@.len(),
            i <= a.len(),
            forall|k: int| 0 <= k < i ==> a@[k] == b@[k],
        decreases a.len() - i,
    {
        if a[i] != b[i] {
            return false;
        }
        i = i + 1;
    }
    assert(a@ =~= b@);
    true
}

} // verus!
