//! Conversions between strings and character vectors, and character
//! vector comparison. Parsing works on `Vec<char>`, whose contents are
//! directly indexable; these helpers move between that form and
//! `String` at the edges.

use vstd::prelude::*;

verus! {

/// The characters of a string, in order, as a vector.
pub fn str_to_chars(s: &str) -> (r: Vec<char>)
    ensures
        r@ == s@,
{
    let n = s.unicode_len();
    let mut v: Vec<char> = Vec::new();
    let mut i: usize = 0;
    while i < n
        invariant
            n == s@.len(),
            i <= n,
            v@ == s@.take(i as int),
        decreases n - i,
    {
        v.push(s.get_char(i));
        proof {
            assert(v@ =~= s@.take(i + 1));
        }
        i += 1;
    }
    proof {
        assert(v@ =~= s@);
    }
    v
}

/// Relies on `String::from_iter` (through `collect`): the string with
/// exactly the given characters, in order. vstd offers no way to build
/// a `String` from arbitrary characters.
#[verifier::external_body]
pub fn string_of_chars(v: &Vec<char>) -> (r: String)
    ensures
        r@ == v@,
{
    v.iter().collect()
}

/// Character-for-character equality of two vectors.
pub fn chars_eq(a: &Vec<char>, b: &Vec<char>) -> (r: bool)
    ensures
        r == (a@ == b@),
{
    if a.len() != b.len() {
        proof {
            assert(a@.len() != b@.len());
        }
        return false;
    }
    let n = a.len();
    let mut i: usize = 0;
    while i < n
        invariant
            n == a@.len() == b@.len(),
            i <= n,
            forall|k: int| 0 <= k < i ==> a@[k] == b@[k],
        decreases n - i,
    {
        if a[i] != b[i] {
            return false;
        }
        i += 1;
    }
    proof {
        assert(a@ =~= b@);
    }
    true
}

/// Equality of a character vector with the characters of a string.
pub fn chars_eq_str(a: &Vec<char>, s: &str) -> (r: bool)
    ensures
        r == (a@ == s@),
{
    let b = str_to_chars(s);
    chars_eq(a, &b)
}

/// Equality of two strings by their characters.
pub fn str_eq(a: &str, b: &str) -> (r: bool)
    ensures
        r == (a@ == b@),
{
    let va = str_to_chars(a);
    chars_eq_str(&va, b)
}

/// The characters of `v` from `lo` (inclusive) to `hi` (exclusive).
pub fn subrange_chars(v: &Vec<char>, lo: usize, hi: usize) -> (r: Vec<char>)
    requires
        lo <= hi <= v@.len(),
    ensures
        r@ == v@.subrange(lo as int, hi as int),
{
    let mut r: Vec<char> = Vec::new();
    let mut i: usize = lo;
    while i < hi
        invariant
            lo <= i <= hi <= v@.len(),
            r@ == v@.subrange(lo as int, i as int),
        decreases hi - i,
    {
        r.push(v[i]);
        proof {
            assert(r@ =~= v@.subrange(lo as int, i + 1));
        }
        i += 1;
    }
    r
}

/// Append the characters of `src` from `lo` to `hi` onto `dst`.
pub fn append_range(dst: &mut Vec<char>, src: &Vec<char>, lo: usize, hi: usize)
    requires
        lo <= hi <= src@.len(),
    ensures
        final(dst)@ == old(dst)@ + src@.subrange(lo as int, hi as int),
{
    let mut i: usize = lo;
    while i < hi
        invariant
            lo <= i <= hi <= src@.len(),
            dst@ == old(dst)@ + src@.subrange(lo as int, i as int),
        decreases hi - i,
    {
        dst.push(src[i]);
        proof {
            assert(old(dst)@ + src@.subrange(lo as int, i as int) + seq![src@[i as int]] =~= old(
                dst,
            )@ + src@.subrange(lo as int, i + 1));
        }
        i += 1;
    }
}

} // verus!
