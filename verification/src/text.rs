//! Characters, white space and scanning: the vocabulary that the rest of the
//! crate states its contracts in.

use vstd::prelude::*;

verus! {

/// Whether `c` carries the Unicode `White_Space` property.
pub open spec fn is_space(c: char) -> bool {
    let n = c as u32;
    ||| 0x09 <= n <= 0x0D
    ||| n == 0x20
    ||| n == 0x85
    ||| n == 0xA0
    ||| n == 0x1680
    ||| 0x2000 <= n <= 0x200A
    ||| n == 0x2028
    ||| n == 0x2029
    ||| n == 0x202F
    ||| n == 0x205F
    ||| n == 0x3000
}

/// Length of the longest prefix of `s` whose characters all satisfy `keep`.
pub open spec fn run_len(s: Seq<char>, keep: spec_fn(char) -> bool) -> nat
    decreases s.len(),
{
    if s.len() > 0 && keep(s[0]) {
        1 + run_len(s.skip(1), keep)
    } else {
        0
    }
}

/// The characters that are white space.
pub open spec fn space() -> spec_fn(char) -> bool {
    |c: char| is_space(c)
}

/// The characters that are not white space.
pub open spec fn non_space() -> spec_fn(char) -> bool {
    |c: char| !is_space(c)
}

/// The characters other than `c`.
pub open spec fn other_than(c: char) -> spec_fn(char) -> bool {
    |x: char| x != c
}

/// Number of white-space characters that `s` begins with.
pub open spec fn leading_spaces(s: Seq<char>) -> nat {
    run_len(s, space())
}

/// Length of the word that `s` begins with: its longest prefix free of white space.
pub open spec fn word_len(s: Seq<char>) -> nat {
    run_len(s, non_space())
}

/// Index of the first `c` in `s`, or `s.len()` where `s` holds none.
pub open spec fn find(s: Seq<char>, c: char) -> nat {
    run_len(s, other_than(c))
}

/// `s` holds nothing but white space.
pub open spec fn is_blank(s: Seq<char>) -> bool {
    forall|i: int| 0 <= i < s.len() ==> is_space(#[trigger] s[i])
}

/// `s` is a word: at least one character, and no white space.
pub open spec fn is_word(s: Seq<char>) -> bool {
    s.len() > 0 && forall|i: int| 0 <= i < s.len() ==> !is_space(#[trigger] s[i])
}

/// A run ends within the sequence, every character before its end is kept,
/// and the character at its end, if there is one, is not.
pub proof fn lemma_run_len(s: Seq<char>, keep: spec_fn(char) -> bool)
    ensures
        run_len(s, keep) <= s.len(),
        forall|j: int| 0 <= j < run_len(s, keep) ==> keep(#[trigger] s[j]),
        run_len(s, keep) < s.len() ==> !keep(s[run_len(s, keep) as int]),
    decreases s.len(),
{
    if s.len() > 0 && keep(s[0]) {
        let t = s.skip(1);
        lemma_run_len(t, keep);
        assert forall|j: int| 0 <= j < run_len(s, keep) implies keep(#[trigger] s[j]) by {
            if j > 0 {
                assert(s[j] == t[j - 1]);
            }
        }
    }
}

/// The end of a run is the only index with the properties of `lemma_run_len`.
pub proof fn lemma_run_len_is(s: Seq<char>, keep: spec_fn(char) -> bool, k: int)
    requires
        0 <= k <= s.len(),
        forall|j: int| 0 <= j < k ==> keep(#[trigger] s[j]),
        k < s.len() ==> !keep(s[k]),
    ensures
        run_len(s, keep) == k,
    decreases s.len(),
{
    if k > 0 {
        let t = s.skip(1);
        lemma_run_len_is(t, keep, k - 1);
    }
}

/// Tells whether `c` is white space, as `char::is_whitespace` does.
pub fn is_whitespace(c: char) -> (b: bool)
    ensures
        b == is_space(c),
{
    let n: u32 = c as u32;
    (0x09 <= n && n <= 0x0D) || n == 0x20 || n == 0x85 || n == 0xA0 || n == 0x1680 || (0x2000 <= n
        && n <= 0x200A) || n == 0x2028 || n == 0x2029 || n == 0x202F || n == 0x205F || n == 0x3000
}

/// `String::push` appends one character to the string and changes nothing else.
pub assume_specification[ String::push ](s: &mut String, c: char)
    ensures
        final(s)@ == old(s)@.push(c),
;

/// The characters of `s`, in order.
pub fn to_chars(s: &str) -> (v: Vec<char>)
    ensures
        v@ == s@,
{
    let mut v: Vec<char> = Vec::new();
    for c in it: s.chars()
        invariant
            it.seq() == s@,
            v@ == s@.take(it.index() as int),
    {
        v.push(c);
    }
    v
}

/// The string made of the characters `v[from..to]`.
pub fn string_of(v: &Vec<char>, from: usize, to: usize) -> (s: String)
    requires
        from <= to <= v.len(),
    ensures
        s@ == v@.subrange(from as int, to as int),
{
    let mut s = String::new();
    let mut i: usize = from;
    while i < to
        invariant
            from <= i <= to <= v.len(),
            s@ == v@.subrange(from as int, i as int),
        decreases to - i,
    {
        s.push(v[i]);
        i += 1;
    }
    s
}

/// The string made of the characters of `v`.
pub fn from_chars(v: &Vec<char>) -> (s: String)
    ensures
        s@ == v@,
{
    string_of(v, 0, v.len())
}

/// The characters `v[from..to]` as a vector of their own.
pub fn slice_of(v: &Vec<char>, from: usize, to: usize) -> (w: Vec<char>)
    requires
        from <= to <= v.len(),
    ensures
        w@ == v@.subrange(from as int, to as int),
{
    let mut w: Vec<char> = Vec::new();
    let mut i: usize = from;
    while i < to
        invariant
            from <= i <= to <= v.len(),
            w@ == v@.subrange(from as int, i as int),
        decreases to - i,
    {
        w.push(v[i]);
        i += 1;
    }
    w
}

/// Appends the characters of `tail` to `v`.
pub fn extend(v: &mut Vec<char>, tail: &Vec<char>)
    ensures
        final(v)@ == old(v)@ + tail@,
{
    let mut i: usize = 0;
    while i < tail.len()
        invariant
            i <= tail.len(),
            v@ == old(v)@ + tail@.take(i as int),
        decreases tail.len() - i,
    {
        v.push(tail[i]);
        i += 1;
    }
}

/// The first index at or after `from` that holds no white space, or `v.len()`.
pub fn skip_spaces(v: &Vec<char>, from: usize) -> (i: usize)
    requires
        from <= v.len(),
    ensures
        from <= i <= v.len(),
        i == from + leading_spaces(v@.skip(from as int)),
{
    let mut i: usize = from;
    while i < v.len() && is_whitespace(v[i])
        invariant
            from <= i <= v.len(),
            forall|j: int| from <= j < i ==> is_space(#[trigger] v@[j]),
        decreases v.len() - i,
    {
        i += 1;
    }
    proof {
        lemma_run_len_is(v@.skip(from as int), space(), i - from);
    }
    i
}

/// The first index at or after `from` that holds white space, or `v.len()`.
pub fn word_end(v: &Vec<char>, from: usize) -> (i: usize)
    requires
        from <= v.len(),
    ensures
        from <= i <= v.len(),
        i == from + word_len(v@.skip(from as int)),
{
    let mut i: usize = from;
    while i < v.len() && !is_whitespace(v[i])
        invariant
            from <= i <= v.len(),
            forall|j: int| from <= j < i ==> !is_space(#[trigger] v@[j]),
        decreases v.len() - i,
    {
        i += 1;
    }
    proof {
        lemma_run_len_is(v@.skip(from as int), non_space(), i - from);
    }
    i
}

/// The first index at or after `from` that holds `c`, or `v.len()`.
pub fn find_char(v: &Vec<char>, from: usize, c: char) -> (i: usize)
    requires
        from <= v.len(),
    ensures
        from <= i <= v.len(),
        i == from + find(v@.skip(from as int), c),
{
    let mut i: usize = from;
    while i < v.len() && v[i] != c
        invariant
            from <= i <= v.len(),
            forall|j: int| from <= j < i ==> #[trigger] v@[j] != c,
        decreases v.len() - i,
    {
        i += 1;
    }
    proof {
        lemma_run_len_is(v@.skip(from as int), other_than(c), i - from);
    }
    i
}

} // verus!
