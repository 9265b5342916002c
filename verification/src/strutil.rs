//! Small verified helpers over `&str` and `String`.
use vstd::prelude::*;

verus! {

/// Character-by-character equality of two string slices.
pub fn str_eq(a: &str, b: &str) -> (r: bool)
    ensures
        r == (a@ == b@),
{
    let alen = a.unicode_len();
    let blen = b.unicode_len();
    if alen != blen {
        assert(a@ != b@) by {
            assert(a@.len() != b@.len());
        }
        return false;
    }
    let mut i: usize = 0;
    while i < alen
        invariant
            i <= alen,
            forall|j: int| 0 <= j < i ==> a@[j] == b@[j],
        decreases alen - i,
    {
        if a.get_char(i) != b.get_char(i) {
            return false;
        }
        i += 1;
    }
    proof {
        assert(a@ =~= b@);
    }
    true
}

/// Does `s` start with the prefix `p`?
pub fn str_starts_with(s: &str, p: &str) -> (r: bool)
    ensures
        r == (s@.len() >= p@.len() && s@.subrange(0, p@.len() as int) == p@),
{
    let slen = s.unicode_len();
    let plen = p.unicode_len();
    if slen < plen {
        return false;
    }
    let mut i: usize = 0;
    while i < plen
        invariant
            i <= plen,
            plen <= slen,
            forall|j: int| 0 <= j < i ==> s@[j] == p@[j],
        decreases plen - i,
    {
        if s.get_char(i) != p.get_char(i) {
            assert(s@.subrange(0, p@.len() as int)[i as int] != p@[i as int]);
            return false;
        }
        i += 1;
    }
    proof {
        assert(s@.subrange(0, p@.len() as int) =~= p@);
    }
    true
}

/// First position of `c` in `s` at or after `from`; the length when absent.
pub open spec fn spec_find(s: Seq<char>, from: int, c: char) -> int
    decreases s.len() - from,
{
    if from < 0 || from >= s.len() {
        s.len() as int
    } else if s[from] == c {
        from
    } else {
        spec_find(s, from + 1, c)
    }
}

pub proof fn lemma_find_props(s: Seq<char>, from: int, c: char)
    requires
        0 <= from <= s.len(),
    ensures
        from <= spec_find(s, from, c) <= s.len(),
        spec_find(s, from, c) < s.len() ==> s[spec_find(s, from, c)] == c,
        forall|j: int| from <= j < spec_find(s, from, c) ==> s[j] != c,
    decreases s.len() - from,
{
    if from < s.len() && s[from] != c {
        lemma_find_props(s, from + 1, c);
    }
}

/// If `p` carries `c` and nothing before it does, then `p` is the first
/// position.
pub proof fn lemma_find_is(s: Seq<char>, from: int, c: char, p: int)
    requires
        0 <= from <= p <= s.len(),
        p < s.len() ==> s[p] == c,
        p == s.len() || s[p] == c,
        forall|j: int| from <= j < p ==> s[j] != c,
    ensures
        spec_find(s, from, c) == p,
    decreases p - from,
{
    if from < p {
        lemma_find_is(s, from + 1, c, p);
    }
}

/// First position of `c` in `s` at or after `start`; the length when
/// absent.
pub fn find_char_from(s: &str, start: usize, c: char) -> (r: usize)
    requires
        start <= s@.len(),
    ensures
        r as int == spec_find(s@, start as int, c),
        start <= r <= s@.len(),
        r < s@.len() ==> s@[r as int] == c,
        forall|j: int| start <= j < r ==> s@[j] != c,
{
    let len = s.unicode_len();
    let mut i: usize = start;
    while i < len
        invariant
            start <= i <= len,
            forall|j: int| start <= j < i ==> s@[j] != c,
        decreases len - i,
    {
        if s.get_char(i) == c {
            proof {
                lemma_find_is(s@, start as int, c, i as int);
            }
            return i;
        }
        i += 1;
    }
    proof {
        lemma_find_is(s@, start as int, c, s@.len() as int);
    }
    len
}

/// An owned copy of a vector of strings, equal element by element.
pub fn clone_string_vec(v: &Vec<String>) -> (r: Vec<String>)
    ensures
        r@ == v@,
        r.deep_view() == v.deep_view(),
{
    let mut r: Vec<String> = Vec::new();
    let n = v.len();
    let mut i: usize = 0;
    while i < n
        invariant
            i <= n,
            n == v@.len(),
            r@ == v@.subrange(0, i as int),
        decreases n - i,
    {
        r.push(v[i].clone());
        proof {
            assert(r@ =~= v@.subrange(0, i + 1 as int));
        }
        i += 1;
    }
    proof {
        assert(r@ =~= v@);
        assert(r.deep_view() =~= v.deep_view());
    }
    r
}

/// The pieces of `s[from ..)` between occurrences of `sep`.
pub open spec fn spec_split_from(s: Seq<char>, from: int, sep: char) -> Seq<Seq<char>>
    decreases s.len() - from,
    via spec_split_from_dec
{
    if from < 0 || from > s.len() {
        Seq::empty()
    } else {
        let p = spec_find(s, from, sep);
        if p >= s.len() {
            seq![s.subrange(from, s.len() as int)]
        } else {
            seq![s.subrange(from, p)] + spec_split_from(s, p + 1, sep)
        }
    }
}

#[via_fn]
proof fn spec_split_from_dec(s: Seq<char>, from: int, sep: char) {
    if 0 <= from <= s.len() {
        lemma_find_props(s, from, sep);
    }
}

/// The pieces of `s` between occurrences of `sep`; one piece more than
/// there are separators.
pub open spec fn spec_split(s: Seq<char>, sep: char) -> Seq<Seq<char>> {
    spec_split_from(s, 0, sep)
}

/// Split `s` at every occurrence of `sep`.
#[verifier::loop_isolation(true)]
pub fn str_split(s: &str, sep: char) -> (r: Vec<String>)
    ensures
        r.deep_view() == spec_split(s@, sep),
{
    let len = s.unicode_len();
    let mut parts: Vec<String> = Vec::new();
    let mut start: usize = 0;
    loop
        invariant_except_break
            start <= len,
            len == s@.len(),
            spec_split(s@, sep) =~= parts.deep_view() + spec_split_from(s@, start as int, sep),
        ensures
            parts.deep_view() =~= spec_split(s@, sep),
        decreases len - start,
    {
        let p = find_char_from(s, start, sep);
        let piece = String::from_str(s.substring_char(start, p));
        let ghost before = parts.deep_view();
        parts.push(piece);
        proof {
            assert(parts.deep_view() =~= before.push(piece@));
        }
        if p == len {
            proof {
                assert(spec_split_from(s@, start as int, sep) =~= seq![piece@]);
                assert(parts.deep_view() =~= before + seq![piece@]);
            }
            break;
        }
        proof {
            assert(spec_split_from(s@, start as int, sep) =~= seq![piece@] + spec_split_from(
                s@,
                p + 1 as int,
                sep,
            ));
            assert(parts.deep_view() + spec_split_from(s@, p + 1 as int, sep) =~= before + (
            seq![piece@] + spec_split_from(s@, p + 1 as int, sep)));
        }
        start = p + 1;
    }
    parts
}

} // verus!
