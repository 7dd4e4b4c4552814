//! Replacing every occurrence of one text in another.

use crate::text::extend;
use vstd::prelude::*;

verus! {

/// `s` with every occurrence of `pattern` replaced by `replacement`. The text
/// is read from its start; where `pattern` stands it is replaced and reading
/// goes on behind it, so the occurrences replaced do not overlap and the
/// leftmost of two that do is the one replaced. An empty `pattern` occurs
/// nowhere.
pub open spec fn replaced(s: Seq<char>, pattern: Seq<char>, replacement: Seq<char>) -> Seq<char>
    decreases s.len(),
{
    if s.len() == 0 {
        s
    } else if pattern.len() > 0 && pattern.is_prefix_of(s) {
        replacement + replaced(s.skip(pattern.len() as int), pattern, replacement)
    } else {
        seq![s[0]] + replaced(s.skip(1), pattern, replacement)
    }
}

/// Whether `pattern` stands in `v` at index `at`.
pub fn stands_at(v: &Vec<char>, at: usize, pattern: &Vec<char>) -> (b: bool)
    requires
        at <= v.len(),
    ensures
        b == pattern@.is_prefix_of(v@.skip(at as int)),
{
    if pattern.len() > v.len() - at {
        return false;
    }
    let mut i: usize = 0;
    while i < pattern.len()
        invariant
            at <= v.len(),
            i <= pattern.len() <= v.len() - at,
            forall|j: int| 0 <= j < i ==> pattern@[j] == v@[at + j],
        decreases pattern.len() - i,
    {
        if pattern[i] != v[at + i] {
            return false;
        }
        i += 1;
    }
    true
}

/// Replaces every occurrence of `pattern` in `v` by `replacement`.
pub fn replace_all(v: &Vec<char>, pattern: &Vec<char>, replacement: &Vec<char>) -> (out: Vec<char>)
    ensures
        out@ == replaced(v@, pattern@, replacement@),
{
    let mut out: Vec<char> = Vec::new();
    let mut at: usize = 0;
    proof {
        assert(v@.skip(0) == v@);
    }
    while at < v.len()
        invariant
            at <= v.len(),
            out@ + replaced(v@.skip(at as int), pattern@, replacement@) == replaced(
                v@,
                pattern@,
                replacement@,
            ),
        decreases v.len() - at,
    {
        let ghost rest = v@.skip(at as int);
        if pattern.len() > 0 && stands_at(v, at, pattern) {
            proof {
                assert(rest.skip(pattern.len() as int) == v@.skip(at + pattern.len()));
            }
            extend(&mut out, replacement);
            at += pattern.len();
        } else {
            proof {
                assert(rest.skip(1) == v@.skip(at + 1));
            }
            out.push(v[at]);
            at += 1;
        }
    }
    out
}

} // verus!
