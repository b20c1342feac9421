//! Verified text primitives used by the query filters: substring search,
//! case-insensitive matching, clan-tag stripping, decimal rendering and a
//! lexicographic order for deterministic tie-breaks.

use vstd::prelude::*;

verus! {

use crate::datetime::digit_char;

/// The needle occurs in the haystack starting at position `i`.
pub open spec fn match_at(hay: Seq<char>, needle: Seq<char>, i: int) -> bool {
    0 <= i && i + needle.len() <= hay.len() && hay.subrange(i, i + needle.len() as int) == needle
}

/// The needle occurs somewhere in the haystack.
pub open spec fn contains_seq(hay: Seq<char>, needle: Seq<char>) -> bool {
    exists|i: int| match_at(hay, needle, i)
}

/// Substring search, character by character.
pub fn str_contains(hay: &str, needle: &str) -> (r: bool)
    ensures
        r == contains_seq(hay@, needle@),
{
    let n = hay.unicode_len();
    let m = needle.unicode_len();
    if m > n {
        assert(forall|i: int| !match_at(hay@, needle@, i));
        return false;
    }
    if m == 0 {
        proof {
            assert(hay@.subrange(0, 0) =~= needle@);
            assert(match_at(hay@, needle@, 0));
        }
        return true;
    }
    let mut i: usize = 0;
    while i <= n - m
        invariant
            1 <= m <= n,
            n == hay@.len(),
            m == needle@.len(),
            i <= n - m + 1,
            forall|k: int| 0 <= k < i ==> !match_at(hay@, needle@, k),
        decreases n - m + 1 - i,
    {
        let mut j: usize = 0;
        let mut matched = true;
        while j < m && matched
            invariant
                m <= n,
                n == hay@.len(),
                m == needle@.len(),
                i <= n - m,
                j <= m,
                matched ==> forall|t: int| 0 <= t < j ==> hay@[i + t] == needle@[t],
                !matched ==> !match_at(hay@, needle@, i as int),
            decreases m - j + (if matched { 1int } else { 0int }),
        {
            if hay.get_char(i + j) != needle.get_char(j) {
                proof {
                    if match_at(hay@, needle@, i as int) {
                        assert(hay@.subrange(i as int, i + m as int)[j as int] == hay@[i + j]);
                    }
                }
                matched = false;
            } else {
                j = j + 1;
            }
        }
        if matched {
            proof {
                assert(hay@.subrange(i as int, i + m as int) =~= needle@);
                assert(match_at(hay@, needle@, i as int));
            }
            return true;
        }
        i = i + 1;
    }
    proof {
        assert(forall|k: int| 0 <= k < i ==> !match_at(hay@, needle@, k));
        assert(forall|k: int| !match_at(hay@, needle@, k)) by {
            assert(forall|k: int| k >= i ==> !match_at(hay@, needle@, k));
        }
    }
    false
}

/// Names the result of Unicode lowercasing: the folded form depends on the
/// characters alone.
pub uninterp spec fn lower_of(s: Seq<char>) -> Seq<char>;

/// Relies on str::to_lowercase: the Unicode lowercase mapping, a function
/// of the characters alone; lowercasing the empty string yields the empty
/// string.
#[verifier::external_body]
pub fn lowercase(s: &str) -> (r: String)
    ensures
        r@ == lower_of(s@),
        s@.len() == 0 ==> r@.len() == 0,
{
    s.to_lowercase()
}

/// The needle occurs in the haystack when both are lowercased.
pub open spec fn contains_ci(hay: Seq<char>, needle: Seq<char>) -> bool {
    contains_seq(lower_of(hay), lower_of(needle))
}

/// Case-insensitive substring search: both sides are lowercased first.
pub fn str_contains_ci(hay: &str, needle: &str) -> (r: bool)
    ensures
        r == contains_ci(hay@, needle@),
{
    let h = lowercase(hay);
    let p = lowercase(needle);
    str_contains(h.as_str(), p.as_str())
}


/// The token separating a clan tag from the player name proper.
pub open spec fn clan_marker() -> Seq<char> {
    seq!['<', 's', 'p', '/', '>']
}

/// The clan-tag marker occurs at position `i`.
pub open spec fn marker_at(s: Seq<char>, i: int) -> bool {
    match_at(s, clan_marker(), i)
}

/// The clan-tag marker occurs somewhere in the name.
pub open spec fn has_marker(s: Seq<char>) -> bool {
    exists|i: int| marker_at(s, i)
}

/// The canonical player name: everything after the last occurrence of the
/// clan-tag marker, or the whole name when no marker occurs. Defined by
/// stripping from the left until no marker is left.
pub open spec fn canon_of(s: Seq<char>) -> Seq<char>
    decreases s.len(),
{
    if s.len() >= 5 && has_marker(s) {
        if marker_at(s, 0) {
            canon_of(s.subrange(5, s.len() as int))
        } else {
            canon_of(s.subrange(1, s.len() as int))
        }
    } else {
        s
    }
}

/// A marker in the name occurs at least five characters in, so a name with
/// a marker is at least five characters long.
proof fn lemma_has_marker_len(s: Seq<char>)
    requires
        has_marker(s),
    ensures
        s.len() >= 5,
{
    let i = choose|i: int| marker_at(s, i);
    assert(i + 5 <= s.len());
}

/// Shifting a suffix moves marker positions by the amount dropped.
proof fn lemma_marker_shift(s: Seq<char>, k: int, i: int)
    requires
        0 <= k <= i,
        i + 5 <= s.len(),
    ensures
        marker_at(s, i) <==> marker_at(s.subrange(k, s.len() as int), i - k),
{
    let t = s.subrange(k, s.len() as int);
    assert(t.subrange(i - k, i - k + 5) =~= s.subrange(i, i + 5));
}

/// Two marker occurrences cannot overlap: the marker shares no border with
/// itself.
proof fn lemma_marker_apart(s: Seq<char>, i: int, j: int)
    requires
        marker_at(s, i),
        marker_at(s, j),
        i < j,
    ensures
        i + 5 <= j,
{
    if j < i + 5 {
        let d = j - i;
        assert(s.subrange(j, j + 5)[0] == s[j]);
        assert(s.subrange(i, i + 5)[d] == s[i + d]);
        assert(s[j] == clan_marker()[0]);
        assert(s[j] == clan_marker()[d]);
        assert(false);
    }
}

/// The canonical name is the suffix after the last marker occurrence.
proof fn lemma_canon_after_last(s: Seq<char>, i: int)
    requires
        marker_at(s, i),
        forall|j: int| j > i ==> !marker_at(s, j),
    ensures
        canon_of(s) == s.subrange(i + 5, s.len() as int),
    decreases s.len(),
{
    lemma_has_marker_len(s);
    if marker_at(s, 0) {
        let t = s.subrange(5, s.len() as int);
        if i == 0 {
            assert(!has_marker(t)) by {
                if has_marker(t) {
                    let j = choose|j: int| marker_at(t, j);
                    assert(j + 5 <= t.len());
                    lemma_marker_shift(s, 5, j + 5);
                    assert(marker_at(s, j + 5));
                }
            }
            assert(canon_of(t) == t);
        } else {
            lemma_marker_apart(s, 0, i);
            lemma_marker_shift(s, 5, i);
            assert(marker_at(t, i - 5));
            assert(forall|j: int| j > i - 5 ==> !marker_at(t, j)) by {
                assert forall|j: int| j > i - 5 && marker_at(t, j) implies false by {
                    assert(j + 5 <= t.len());
                    lemma_marker_shift(s, 5, j + 5);
                    assert(marker_at(s, j + 5));
                }
            }
            lemma_canon_after_last(t, i - 5);
            assert(t.subrange(i, t.len() as int) =~= s.subrange(i + 5, s.len() as int));
        }
    } else {
        assert(i > 0);
        let t = s.subrange(1, s.len() as int);
        lemma_marker_shift(s, 1, i);
        assert(marker_at(t, i - 1));
        assert(forall|j: int| j > i - 1 ==> !marker_at(t, j)) by {
            assert forall|j: int| j > i - 1 && marker_at(t, j) implies false by {
                assert(j + 5 <= t.len());
                lemma_marker_shift(s, 1, j + 1);
                assert(marker_at(s, j + 1));
            }
        }
        lemma_canon_after_last(t, i - 1);
        assert(t.subrange(i + 4, t.len() as int) =~= s.subrange(i + 5, s.len() as int));
    }
}

/// The canonical name holds no marker.
proof fn lemma_canon_has_no_marker(s: Seq<char>)
    ensures
        !has_marker(canon_of(s)),
    decreases s.len(),
{
    if s.len() >= 5 && has_marker(s) {
        if marker_at(s, 0) {
            lemma_canon_has_no_marker(s.subrange(5, s.len() as int));
        } else {
            lemma_canon_has_no_marker(s.subrange(1, s.len() as int));
        }
    } else {
        if has_marker(s) {
            lemma_has_marker_len(s);
        }
    }
}

/// Stripping the clan tag is idempotent: a name stripped once strips to
/// itself again.
pub proof fn lemma_canon_idempotent(s: Seq<char>)
    ensures
        canon_of(canon_of(s)) == canon_of(s),
{
    lemma_canon_has_no_marker(s);
}

/// The marker occurs at position `i` of the name.
fn marker_at_exec(s: &str, i: usize) -> (r: bool)
    requires
        i + 5 <= s@.len(),
        i + 5 <= usize::MAX,
    ensures
        r == marker_at(s@, i as int),
{
    let r = s.get_char(i) == '<' && s.get_char(i + 1) == 's' && s.get_char(i + 2) == 'p'
        && s.get_char(i + 3) == '/' && s.get_char(i + 4) == '>';
    proof {
        let sub = s@.subrange(i as int, i + 5);
        assert(sub[0] == s@[i as int]);
        assert(sub[1] == s@[i + 1]);
        assert(sub[2] == s@[i + 2]);
        assert(sub[3] == s@[i + 3]);
        assert(sub[4] == s@[i + 4]);
        if r {
            assert(sub =~= clan_marker());
        } else {
            assert(sub != clan_marker());
        }
    }
    r
}

/// The canonical player name: the display name with any clan-tag prefix
/// (everything up to and including the last marker) removed.
pub fn canonical_name(name: &str) -> (r: String)
    ensures
        r@ == canon_of(name@),
{
    let n = name.unicode_len();
    if n < 5 {
        proof {
            if has_marker(name@) {
                lemma_has_marker_len(name@);
            }
        }
        return name.to_owned();
    }
    let mut found = false;
    let mut pos: usize = 0;
    let mut i: usize = 0;
    while i <= n - 5
        invariant
            5 <= n,
            n == name@.len(),
            i <= n - 5 + 1,
            found ==> marker_at(name@, pos as int) && (pos as int) < i,
            found ==> forall|j: int| pos < j < i ==> !marker_at(name@, j),
            !found ==> forall|j: int| 0 <= j < i ==> !marker_at(name@, j),
        decreases n - 5 + 1 - i,
    {
        if marker_at_exec(name, i) {
            found = true;
            pos = i;
        }
        i = i + 1;
    }
    proof {
        assert(forall|j: int| j >= i ==> !marker_at(name@, j));
    }
    if found {
        let tail = name.substring_char(pos + 5, n);
        proof {
            lemma_canon_after_last(name@, pos as int);
        }
        tail.to_owned()
    } else {
        proof {
            assert(!has_marker(name@));
        }
        name.to_owned()
    }
}


/// Strict lexicographic order on character sequences, by Unicode scalar
/// value, shorter prefixes first.
pub open spec fn seq_char_lt(a: Seq<char>, b: Seq<char>) -> bool
    decreases a.len(),
{
    if b.len() == 0 {
        false
    } else if a.len() == 0 {
        true
    } else if (a[0] as int) < (b[0] as int) {
        true
    } else if a[0] == b[0] {
        seq_char_lt(a.subrange(1, a.len() as int), b.subrange(1, b.len() as int))
    } else {
        false
    }
}

/// Non-strict lexicographic order on character sequences.
pub open spec fn seq_char_le(a: Seq<char>, b: Seq<char>) -> bool {
    seq_char_lt(a, b) || a == b
}

/// The lexicographic order is total: incomparable sequences are equal.
pub proof fn lemma_seq_char_connected(a: Seq<char>, b: Seq<char>)
    ensures
        !seq_char_lt(a, b) && !seq_char_lt(b, a) ==> a == b,
    decreases a.len(),
{
    if !seq_char_lt(a, b) && !seq_char_lt(b, a) {
        if a.len() == 0 && b.len() == 0 {
            assert(a =~= b);
        } else if a.len() == 0 || b.len() == 0 {
            assert(false);
        } else {
            assert(a[0] == b[0]);
            let ta = a.subrange(1, a.len() as int);
            let tb = b.subrange(1, b.len() as int);
            lemma_seq_char_connected(ta, tb);
            assert(a =~= b) by {
                assert(forall|i: int|
                    1 <= i < a.len() ==> a[i] == ta[i - 1] && #[trigger] b[i] == tb[i - 1]);
            }
        }
    }
}

/// The lexicographic order is irreflexive.
pub proof fn lemma_seq_char_lt_irrefl(a: Seq<char>)
    ensures
        !seq_char_lt(a, a),
    decreases a.len(),
{
    if a.len() > 0 {
        lemma_seq_char_lt_irrefl(a.subrange(1, a.len() as int));
    }
}

/// The lexicographic order is transitive.
pub proof fn lemma_seq_char_lt_trans(a: Seq<char>, b: Seq<char>, c: Seq<char>)
    ensures
        seq_char_lt(a, b) && seq_char_lt(b, c) ==> seq_char_lt(a, c),
    decreases a.len(),
{
    if seq_char_lt(a, b) && seq_char_lt(b, c) {
        if a.len() == 0 || b.len() == 0 || c.len() == 0 {
        } else {
            if a[0] == b[0] && b[0] == c[0] {
                lemma_seq_char_lt_trans(
                    a.subrange(1, a.len() as int),
                    b.subrange(1, b.len() as int),
                    c.subrange(1, c.len() as int),
                );
            }
        }
    }
}

/// Dropping a common prefix does not change the lexicographic comparison.
proof fn lemma_lt_common_prefix(a: Seq<char>, b: Seq<char>, i: int)
    requires
        0 <= i <= a.len(),
        i <= b.len(),
        forall|j: int| 0 <= j < i ==> a[j] == b[j],
    ensures
        seq_char_lt(a, b) == seq_char_lt(
            a.subrange(i, a.len() as int),
            b.subrange(i, b.len() as int),
        ),
    decreases i,
{
    if i == 0 {
        assert(a.subrange(0, a.len() as int) =~= a);
        assert(b.subrange(0, b.len() as int) =~= b);
    } else {
        let ta = a.subrange(1, a.len() as int);
        let tb = b.subrange(1, b.len() as int);
        assert(a[0] == b[0]);
        assert(seq_char_lt(a, b) == seq_char_lt(ta, tb));
        assert(forall|j: int| 0 <= j < i - 1 ==> ta[j] == a[j + 1] && #[trigger] tb[j] == b[j + 1]);
        lemma_lt_common_prefix(ta, tb, i - 1);
        assert(ta.subrange(i - 1, ta.len() as int) =~= a.subrange(i, a.len() as int));
        assert(tb.subrange(i - 1, tb.len() as int) =~= b.subrange(i, b.len() as int));
    }
}

/// Lexicographic comparison of two strings, character by character.
pub fn str_lt(a: &str, b: &str) -> (r: bool)
    ensures
        r == seq_char_lt(a@, b@),
{
    let na = a.unicode_len();
    let nb = b.unicode_len();
    let mut i: usize = 0;
    while i < na && i < nb
        invariant
            i <= na,
            i <= nb,
            na == a@.len(),
            nb == b@.len(),
            forall|j: int| 0 <= j < i ==> a@[j] == b@[j],
        decreases na - i,
    {
        let ca = a.get_char(i);
        let cb = b.get_char(i);
        proof {
            lemma_lt_common_prefix(a@, b@, i as int);
            assert(a@.subrange(i as int, na as int)[0] == a@[i as int]);
            assert(b@.subrange(i as int, nb as int)[0] == b@[i as int]);
        }
        if (ca as u32) < (cb as u32) {
            return true;
        }
        if (cb as u32) < (ca as u32) {
            return false;
        }
        assert(ca == cb);
        i = i + 1;
    }
    proof {
        lemma_lt_common_prefix(a@, b@, i as int);
    }
    na < nb
}

/// The decimal rendering of a non-negative integer, most significant digit
/// first, no leading zeroes except for zero itself.
pub open spec fn dec_of(n: int) -> Seq<char>
    decreases n,
{
    if n < 10 {
        seq![digit_char(n)]
    } else {
        dec_of(n / 10).push(digit_char(n % 10))
    }
}

/// Builds the decimal digits of `n`, most significant first.
fn u64_dec_chars(n: u64) -> (r: Vec<char>)
    ensures
        r@ == dec_of(n as int),
    decreases n,
{
    if n < 10 {
        let mut v: Vec<char> = Vec::new();
        v.push(crate::datetime::digit_char_exec(n as u32));
        assert(v@ =~= dec_of(n as int));
        v
    } else {
        let mut v = u64_dec_chars(n / 10);
        v.push(crate::datetime::digit_char_exec((n % 10) as u32));
        assert(v@ =~= dec_of(n as int));
        v
    }
}

/// Renders an identifier in decimal, the form in which exact identifier
/// filters are matched.
pub fn u64_to_dec_string(n: u64) -> (r: String)
    ensures
        r@ == dec_of(n as int),
{
    let v = u64_dec_chars(n);
    crate::datetime::string_from_chars(&v)
}

/// Names the result of percent-decoding query text: a function of the
/// characters alone.
pub uninterp spec fn url_decoded_of(s: Seq<char>) -> Seq<char>;

/// Relies on urlencoding::decode: percent-decoding, a function of the
/// characters alone; an input holding no '%' decodes to itself. A
/// malformed-UTF-8 decoding error is replaced by the empty string.
#[verifier::external_body]
pub fn url_decode(s: &str) -> (r: String)
    ensures
        r@ == url_decoded_of(s@),
        (forall|i: int| 0 <= i < s@.len() ==> s@[i] != '%') ==> r@ == s@,
{
    match urlencoding::decode(s) {
        Result::Ok(c) => c.into_owned(),
        Result::Err(_) => String::new(),
    }
}

/// Names the result of percent-encoding link text: a function of the
/// characters alone.
pub uninterp spec fn url_encoded_of(s: Seq<char>) -> Seq<char>;

/// Relies on urlencoding::encode: percent-encoding of every byte except
/// ASCII alphanumerics and '-', '_', '.', '~'; a function of the
/// characters alone; the empty string encodes to itself.
#[verifier::external_body]
pub fn url_encode(s: &str) -> (r: String)
    ensures
        r@ == url_encoded_of(s@),
        s@.len() == 0 ==> r@.len() == 0,
{
    urlencoding::encode(s).into_owned()
}


/// The view of an optional string.
pub open spec fn opt_str_view(o: Option<String>) -> Option<Seq<char>> {
    match o {
        Option::Some(s) => Option::Some(s@),
        Option::None => Option::None,
    }
}

/// The clan tag of a display name: the text before the last clan-tag
/// marker, or nothing when no marker occurs.
pub open spec fn clan_of(s: Seq<char>) -> Option<Seq<char>> {
    if has_marker(s) {
        Option::Some(s.subrange(0, s.len() - canon_of(s).len() - 5))
    } else {
        Option::None
    }
}

/// The clan tag of a display name, or `None` when the name carries none.
pub fn clan_tag(name: &str) -> (r: Option<String>)
    ensures
        opt_str_view(r) == clan_of(name@),
{
    let n = name.unicode_len();
    if n < 5 {
        proof {
            if has_marker(name@) {
                lemma_has_marker_len(name@);
            }
        }
        return Option::None;
    }
    let mut found = false;
    let mut pos: usize = 0;
    let mut i: usize = 0;
    while i <= n - 5
        invariant
            5 <= n,
            n == name@.len(),
            i <= n - 5 + 1,
            found ==> marker_at(name@, pos as int) && (pos as int) < i,
            found ==> forall|j: int| pos < j < i ==> !marker_at(name@, j),
            !found ==> forall|j: int| 0 <= j < i ==> !marker_at(name@, j),
        decreases n - 5 + 1 - i,
    {
        if marker_at_exec(name, i) {
            found = true;
            pos = i;
        }
        i = i + 1;
    }
    proof {
        assert(forall|j: int| j >= i ==> !marker_at(name@, j));
    }
    if found {
        let head = name.substring_char(0, pos);
        proof {
            lemma_canon_after_last(name@, pos as int);
            assert(canon_of(name@).len() == n - (pos + 5));
            assert(name@.subrange(0, pos as int) == name@.subrange(
                0,
                name@.len() - canon_of(name@).len() - 5,
            ));
        }
        Option::Some(head.to_owned())
    } else {
        proof {
            assert(!has_marker(name@));
        }
        Option::None
    }
}

} // verus!
