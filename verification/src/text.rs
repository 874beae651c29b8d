//! Low-level string utilities shared by the lexer and the evaluator.

use itertools::Itertools;
use vstd::prelude::*;
use vstd::string::StrSliceExecFns;

verus! {

/// Character-by-character equality of two string slices.
pub fn str_eq(a: &str, b: &str) -> (r: bool)
    ensures
        r == (a@ == b@),
{
    let alen = a.unicode_len();
    let blen = b.unicode_len();
    if alen != blen {
        return false;
    }
    let mut i: usize = 0;
    while i < alen
        invariant
            alen == a@.len(),
            blen == b@.len(),
            alen == blen,
            i <= alen,
            forall|j: int| 0 <= j < i ==> a@[j] == b@[j],
        decreases alen - i,
    {
        if a.get_char(i) != b.get_char(i) {
            return false;
        }
        i += 1;
    }
    proof {
        assert(a@ =~= b@);
    }
    true
}

/// The characters of a string slice, as a vector.
pub fn chars_of_str(s: &str) -> (v: Vec<char>)
    ensures
        v@ == s@,
{
    let n = s.unicode_len();
    let mut v: Vec<char> = Vec::new();
    let mut i: usize = 0;
    while i < n
        invariant
            n == s@.len(),
            i <= n,
            v@ =~= s@.subrange(0, i as int),
        decreases n - i,
    {
        v.push(s.get_char(i));
        i += 1;
    }
    proof {
        assert(v@ =~= s@);
    }
    v
}

/// Relies on `String: FromIterator<char>`: collecting a sequence of
/// characters builds the string of exactly those characters, in order.
#[verifier::external_body]
pub fn string_from_chars(chars: &Vec<char>) -> (s: String)
    ensures
        s@ == chars@,
{
    chars.iter().collect()
}

/// Relies on itertools' `Itertools::tuple_windows` over `str::chars`:
/// it yields every pair of adjacent characters of the string, in order,
/// and nothing for a string shorter than two characters.
#[verifier::external_body]
pub fn adjacent_pairs(s: &str) -> (r: Vec<(char, char)>)
    ensures
        r@.len() == (if s@.len() == 0 {
            0int
        } else {
            s@.len() - 1
        }),
        forall|i: int| 0 <= i < r@.len() ==> r@[i] == (s@[i], s@[i + 1]),
{
    s.chars().tuple_windows::<(char, char)>().collect()
}

} // verus!
