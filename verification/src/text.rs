//! Character-level string helpers and their specifications.
//!
//! Strings are modelled by their character sequences (`s@`). Where the
//! routing rules measure a string in bytes, `byte_len` gives the length of
//! its UTF-8 encoding, which is what `str::len` returns.

use vstd::prelude::*;
use vstd::utf8::encode_utf8;
use vstd::utf8::is_ascii_chars;

verus! {

broadcast use vstd::string::group_string_axioms;

/// Length in bytes of the UTF-8 encoding of `s`.
pub open spec fn byte_len(s: Seq<char>) -> nat {
    encode_utf8(s).len()
}

/// `p` is a prefix of `s`.
pub open spec fn has_prefix(s: Seq<char>, p: Seq<char>) -> bool {
    p.len() <= s.len() && s.take(p.len() as int) == p
}

/// `p` is a suffix of `s`.
pub open spec fn has_suffix(s: Seq<char>, p: Seq<char>) -> bool {
    p.len() <= s.len() && s.skip(s.len() - p.len()) == p
}

/// Position of the first occurrence of `c` in `s`.
pub open spec fn first_index(s: Seq<char>, c: char) -> Option<int> {
    if s.contains(c) {
        Some(choose|i: int| 0 <= i < s.len() && s[i] == c && !s.take(i).contains(c))
    } else {
        None
    }
}

/// Position of the last occurrence of `c` in `s`.
pub open spec fn last_index(s: Seq<char>, c: char) -> Option<int> {
    if s.contains(c) {
        Some(choose|i: int| 0 <= i < s.len() && s[i] == c && !s.skip(i + 1).contains(c))
    } else {
        None
    }
}

/// The part of `s` before the first `c`, or all of `s` when it holds no `c`
/// (the first piece of `s.split(c)`).
pub open spec fn before_first(s: Seq<char>, c: char) -> Seq<char> {
    match first_index(s, c) {
        Some(i) => s.take(i),
        None => s,
    }
}

/// The part of `s` before the last `c`, or all of `s` when it holds no `c`
/// (the left part of `s.rsplit_once(c)`, falling back to `s`).
pub open spec fn before_last(s: Seq<char>, c: char) -> Seq<char> {
    match last_index(s, c) {
        Some(i) => s.take(i),
        None => s,
    }
}

/// ASCII lowercase of one character.
pub open spec fn ascii_lower_char(c: char) -> char {
    if 'A' <= c && c <= 'Z' {
        ((c as u32) + 32) as char
    } else {
        c
    }
}

/// ASCII lowercase of a character sequence.
pub open spec fn ascii_lower(s: Seq<char>) -> Seq<char> {
    s.map_values(|c: char| ascii_lower_char(c))
}

/// What `str::to_lowercase` returns for a string with the given characters.
pub uninterp spec fn unicode_lowercase(s: Seq<char>) -> Seq<char>;

/// Calls `str::to_lowercase`. Its documentation defines the result by the
/// Unicode lowercase mapping, which is named here (`unicode_lowercase`);
/// on ASCII characters that mapping is the ASCII one (`A`-`Z` to `a`-`z`,
/// every other ASCII character unchanged), which is the only part stated.
#[verifier::external_body]
pub(crate) fn to_lowercase(s: &str) -> (r: String)
    ensures
        r@ == unicode_lowercase(s@),
        is_ascii_chars(s@) ==> r@ == ascii_lower(s@),
{
    s.to_lowercase()
}

/// The UTF-8 length of a concatenation is the sum of the lengths.
pub proof fn lemma_byte_len_concat(a: Seq<char>, b: Seq<char>)
    ensures
        byte_len(a + b) == byte_len(a) + byte_len(b),
    decreases a.len(),
{
    if a.len() == 0 {
        assert(a + b =~= b);
    } else {
        assert((a + b).drop_first() =~= a.drop_first() + b);
        lemma_byte_len_concat(a.drop_first(), b);
    }
}

/// Every character takes at least one byte.
pub proof fn lemma_byte_len_at_least_len(s: Seq<char>)
    ensures
        byte_len(s) >= s.len(),
    decreases s.len(),
{
    if s.len() > 0 {
        lemma_byte_len_at_least_len(s.drop_first());
    }
}

/// A prefix takes no more bytes than the whole.
pub proof fn lemma_byte_len_prefix(s: Seq<char>, n: int)
    requires
        0 <= n <= s.len(),
    ensures
        byte_len(s.take(n)) <= byte_len(s),
        byte_len(s.take(n)) + byte_len(s.skip(n)) == byte_len(s),
{
    assert(s.take(n) + s.skip(n) =~= s);
    lemma_byte_len_concat(s.take(n), s.skip(n));
}

/// The position of the first `c` in `p + seq![c] + q` when `p` holds no `c`.
pub proof fn lemma_first_index_after(p: Seq<char>, c: char, q: Seq<char>)
    requires
        !p.contains(c),
    ensures
        first_index(p + seq![c] + q, c) == Some(p.len() as int),
        before_first(p + seq![c] + q, c) == p,
{
    let s = p + seq![c] + q;
    assert(s[p.len() as int] == c);
    assert(s.contains(c));
    let i = first_index(s, c)->0;
    if i < p.len() {
        assert(p[i] == c);
    } else if i > p.len() {
        assert(s.take(i)[p.len() as int] == c);
    }
    assert(s.take(p.len() as int) =~= p);
}

/// The position of the last `c` in `p + seq![c] + q` when `q` holds no `c`.
pub proof fn lemma_last_index_before(p: Seq<char>, c: char, q: Seq<char>)
    requires
        !q.contains(c),
    ensures
        last_index(p + seq![c] + q, c) == Some(p.len() as int),
        before_last(p + seq![c] + q, c) == p,
{
    let s = p + seq![c] + q;
    assert(s[p.len() as int] == c);
    assert(s.contains(c));
    let i = last_index(s, c)->0;
    if i > p.len() {
        assert(q[i - p.len() - 1] == c);
    } else if i < p.len() {
        assert(s.skip(i + 1)[p.len() - i - 1] == c);
    }
    assert(s.take(p.len() as int) =~= p);
}

/// Length of `s` in bytes.
pub fn byte_length(s: &str) -> (n: usize)
    ensures
        n == byte_len(s@),
{
    s.as_bytes().len()
}

/// Collects the characters of `s` into a vector.
pub fn chars_of(s: &str) -> (v: Vec<char>)
    ensures
        v@ == s@,
{
    let mut v: Vec<char> = Vec::new();
    for c in iter: s.chars()
        invariant
            v@ == iter.seq().take(iter.index() as int),
    {
        v.push(c);
    }
    v
}

/// Copies the characters `from..to` of `s` into a new `String`.
pub fn substring(s: &str, from: usize, to: usize) -> (r: String)
    requires
        from <= to <= s@.len(),
    ensures
        r@ == s@.subrange(from as int, to as int),
{
    s.substring_char(from, to).to_owned()
}

/// Copies the characters `from..to` of `v` into a new vector.
pub fn slice_chars(v: &Vec<char>, from: usize, to: usize) -> (r: Vec<char>)
    requires
        from <= to <= v.len(),
    ensures
        r@ == v@.subrange(from as int, to as int),
{
    let mut r: Vec<char> = Vec::new();
    let mut i = from;
    while i < to
        invariant
            from <= i <= to <= v.len(),
            r@ == v@.subrange(from as int, i as int),
        decreases to - i,
    {
        r.push(v[i]);
        i = i + 1;
    }
    r
}

/// Whether `c` occurs in `s`.
pub fn contains_char(s: &Vec<char>, c: char) -> (r: bool)
    ensures
        r == s@.contains(c),
{
    let mut i: usize = 0;
    while i < s.len()
        invariant
            i <= s.len(),
            !s@.take(i as int).contains(c),
        decreases s.len() - i,
    {
        if s[i] == c {
            assert(s@[i as int] == c);
            return true;
        }
        assert(s@.take(i as int + 1) =~= s@.take(i as int).push(s@[i as int]));
        i = i + 1;
    }
    assert(s@.take(i as int) =~= s@);
    false
}

/// Position of the first `c` in `s`.
pub fn find_first(s: &Vec<char>, c: char) -> (r: Option<usize>)
    ensures
        match r {
            Some(i) => first_index(s@, c) == Some(i as int),
            None => first_index(s@, c) is None,
        },
        r matches Some(i) ==> i < s@.len() && s@[i as int] == c && !s@.take(i as int).contains(c),
{
    let mut i: usize = 0;
    while i < s.len()
        invariant
            i <= s.len(),
            !s@.take(i as int).contains(c),
        decreases s.len() - i,
    {
        if s[i] == c {
            assert(s@[i as int] == c);
            assert(s@.contains(c));
            let ghost k = first_index(s@, c)->0;
            assert(0 <= k < s@.len() && s@[k] == c && !s@.take(k).contains(c));
            proof {
                if k < i as int {
                    assert(s@.take(i as int)[k] == c);
                } else if k > i as int {
                    assert(s@.take(k)[i as int] == c);
                }
            }
            return Some(i);
        }
        assert(s@.take(i as int + 1) =~= s@.take(i as int).push(s@[i as int]));
        i = i + 1;
    }
    assert(s@.take(i as int) =~= s@);
    None
}

/// Position of the last `c` in `s`.
pub fn find_last(s: &Vec<char>, c: char) -> (r: Option<usize>)
    ensures
        match r {
            Some(i) => last_index(s@, c) == Some(i as int),
            None => last_index(s@, c) is None,
        },
        r matches Some(i) ==> i < s@.len() && s@[i as int] == c && !s@.skip(i + 1).contains(c),
{
    let mut i: usize = s.len();
    while i > 0
        invariant
            i <= s.len(),
            !s@.skip(i as int).contains(c),
        decreases i,
    {
        let j = i - 1;
        if s[j] == c {
            assert(s@[j as int] == c);
            assert(s@.contains(c));
            let ghost k = last_index(s@, c)->0;
            assert(0 <= k < s@.len() && s@[k] == c && !s@.skip(k + 1).contains(c));
            proof {
                if k < j as int {
                    assert(s@.skip(k + 1)[j - (k + 1)] == c);
                } else if k > j as int {
                    assert(s@.skip(j as int + 1)[k - (j + 1)] == c);
                }
            }
            return Some(j);
        }
        assert(s@.skip(j as int) =~= seq![s@[j as int]] + s@.skip(i as int));
        i = j;
    }
    assert(s@.skip(0) =~= s@);
    None
}

/// Whether `p` is a prefix of `s`.
pub fn starts_with(s: &Vec<char>, p: &Vec<char>) -> (r: bool)
    ensures
        r == has_prefix(s@, p@),
{
    if p.len() > s.len() {
        return false;
    }
    let mut i: usize = 0;
    while i < p.len()
        invariant
            p.len() <= s.len(),
            i <= p.len(),
            forall|j: int| 0 <= j < i ==> s@[j] == p@[j],
        decreases p.len() - i,
    {
        if s[i] != p[i] {
            assert(s@.take(p@.len() as int)[i as int] != p@[i as int]);
            return false;
        }
        i = i + 1;
    }
    assert(s@.take(p@.len() as int) =~= p@);
    true
}

/// Whether `p` is a suffix of `s`.
pub fn ends_with(s: &Vec<char>, p: &Vec<char>) -> (r: bool)
    ensures
        r == has_suffix(s@, p@),
{
    if p.len() > s.len() {
        return false;
    }
    let off = s.len() - p.len();
    let mut i: usize = 0;
    while i < p.len()
        invariant
            p.len() <= s.len(),
            off == s.len() - p.len(),
            i <= p.len(),
            forall|j: int| 0 <= j < i ==> s@[off + j] == p@[j],
        decreases p.len() - i,
    {
        if s[off + i] != p[i] {
            assert(s@.skip(off as int)[i as int] != p@[i as int]);
            return false;
        }
        i = i + 1;
    }
    assert(s@.skip(off as int) =~= p@);
    true
}

/// Whether `a` and `b` hold the same characters.
pub fn same_chars(a: &Vec<char>, b: &Vec<char>) -> (r: bool)
    ensures
        r == (a@ == b@),
{
    if a.len() != b.len() {
        return false;
    }
    let mut i: usize = 0;
    while i < a.len()
        invariant
            a.len() == b.len(),
            i <= a.len(),
            forall|j: int| 0 <= j < i ==> a@[j] == b@[j],
        decreases a.len() - i,
    {
        if a[i] != b[i] {
            return false;
        }
        i = i + 1;
    }
    assert(a@ =~= b@);
    true
}

} // verus!
