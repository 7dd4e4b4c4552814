//! Lines and words of a text, and words joined again.

use crate::text::{
    extend, find, find_char, is_space, is_whitespace, is_word, lemma_run_len, lemma_run_len_is,
    non_space, other_than, slice_of, word_end, word_len,
};
use vstd::prelude::*;

verus! {

/// The character sequences that a vector of character vectors holds.
pub open spec fn texts(ws: Seq<Vec<char>>) -> Seq<Seq<char>> {
    Seq::new(ws.len(), |i: int| ws[i]@)
}

/// `s` without the carriage return that it ends with, if it ends with one.
pub open spec fn without_cr(s: Seq<char>) -> Seq<char> {
    if s.len() > 0 && s.last() == '\r' {
        s.drop_last()
    } else {
        s
    }
}

/// The lines of `s`. A line ends at a line feed; the line feed, and a carriage
/// return just before it, are not part of the line. What follows the last line
/// feed is a line too unless it is empty, and it keeps a carriage return at
/// its end.
pub open spec fn lines(s: Seq<char>) -> Seq<Seq<char>>
    decreases s.len(),
{
    if s.len() == 0 {
        Seq::empty()
    } else {
        let n = find(s, '\n');
        if n >= s.len() {
            seq![s]
        } else {
            seq![without_cr(s.take(n as int))] + lines(s.skip(n as int + 1))
        }
    }
}

/// The words of `s`: its maximal runs of characters that are not white space,
/// in the order in which they stand.
pub open spec fn words(s: Seq<char>) -> Seq<Seq<char>>
    decreases s.len(),
{
    if s.len() == 0 {
        Seq::empty()
    } else if is_space(s[0]) {
        words(s.skip(1))
    } else {
        let n = word_len(s);
        if n >= s.len() {
            seq![s]
        } else {
            seq![s.take(n as int)] + words(s.skip(n as int))
        }
    }
}

/// The words `ws` with one space between each two neighbours.
pub open spec fn joined(ws: Seq<Seq<char>>) -> Seq<char>
    decreases ws.len(),
{
    if ws.len() == 0 {
        Seq::empty()
    } else if ws.len() == 1 {
        ws[0]
    } else {
        joined(ws.drop_last()) + seq![' '] + ws.last()
    }
}

/// No line holds a line feed.
pub proof fn lemma_lines_hold_no_line_feed(s: Seq<char>)
    ensures
        forall|i: int, j: int|
            0 <= i < lines(s).len() && 0 <= j < lines(s)[i].len() ==> #[trigger] lines(s)[i][j]
                != '\n',
    decreases s.len(),
{
    if s.len() > 0 {
        let n = find(s, '\n') as int;
        lemma_run_len(s, other_than('\n'));
        if n < s.len() {
            let rest = s.skip(n + 1);
            lemma_lines_hold_no_line_feed(rest);
            assert forall|i: int, j: int|
                0 <= i < lines(s).len() && 0 <= j < lines(s)[i].len() implies #[trigger] lines(
                s,
            )[i][j] != '\n' by {
                if i > 0 {
                    assert(lines(s)[i] == lines(rest)[i - 1]);
                }
            }
        }
    }
}

/// Each of the words of a text is a word.
pub proof fn lemma_words_are_words(s: Seq<char>)
    ensures
        forall|i: int| 0 <= i < words(s).len() ==> is_word(#[trigger] words(s)[i]),
    decreases s.len(),
{
    if s.len() == 0 {
    } else if is_space(s[0]) {
        lemma_words_are_words(s.skip(1));
        assert(words(s) == words(s.skip(1)));
    } else {
        let n = word_len(s) as int;
        lemma_run_len(s, non_space());
        if n < s.len() {
            let rest = s.skip(n);
            lemma_words_are_words(rest);
            assert forall|i: int| 0 <= i < words(s).len() implies is_word(
                #[trigger] words(s)[i],
            ) by {
                if i > 0 {
                    assert(words(s)[i] == words(rest)[i - 1]);
                }
            }
        }
    }
}

/// A word behind a text and a space is one more word behind the words of
/// that text.
pub proof fn lemma_words_with_one_more(s: Seq<char>, word: Seq<char>)
    requires
        is_word(word),
    ensures
        words(s + seq![' '] + word) == words(s).push(word),
    decreases s.len(),
{
    let all = s + seq![' '] + word;
    if s.len() == 0 {
        assert(all.skip(1) == word);
        lemma_run_len_is(word, non_space(), word.len() as int);
        assert(words(all) == words(word));
    } else if is_space(s[0]) {
        assert(all.skip(1) == s.skip(1) + seq![' '] + word);
        lemma_words_with_one_more(s.skip(1), word);
    } else {
        let n = word_len(s) as int;
        lemma_run_len(s, non_space());
        lemma_run_len_is(all, non_space(), n);
        assert(all.take(n) == s.take(n));
        assert(all.skip(n) == s.skip(n) + seq![' '] + word);
        lemma_words_with_one_more(s.skip(n), word);
        if n == s.len() {
            assert(s.take(n) == s);
        }
    }
}

/// Joining words and splitting what comes out gives the words back.
pub proof fn lemma_words_of_joined(ws: Seq<Seq<char>>)
    requires
        forall|i: int| 0 <= i < ws.len() ==> is_word(#[trigger] ws[i]),
    ensures
        words(joined(ws)) == ws,
    decreases ws.len(),
{
    if ws.len() == 1 {
        lemma_run_len_is(ws[0], non_space(), ws[0].len() as int);
    } else if ws.len() > 1 {
        lemma_words_of_joined(ws.drop_last());
        lemma_words_with_one_more(joined(ws.drop_last()), ws.last());
    }
}

/// Splits `v` into its lines.
pub fn split_lines(v: &Vec<char>) -> (out: Vec<Vec<char>>)
    ensures
        texts(out@) == lines(v@),
{
    let mut out: Vec<Vec<char>> = Vec::new();
    let mut start: usize = 0;
    proof {
        assert(v@.skip(0) == v@);
    }
    while start < v.len()
        invariant
            start <= v.len(),
            texts(out@) + lines(v@.skip(start as int)) == lines(v@),
        decreases v.len() - start,
    {
        let ghost rest = v@.skip(start as int);
        let feed = find_char(v, start, '\n');
        if feed == v.len() {
            out.push(slice_of(v, start, feed));
            start = feed;
        } else {
            let end = if feed > start && v[feed - 1] == '\r' {
                feed - 1
            } else {
                feed
            };
            out.push(slice_of(v, start, end));
            proof {
                let line = rest.take(feed - start);
                assert(v@.subrange(start as int, end as int) == without_cr(line));
                assert(rest.skip(feed - start + 1) == v@.skip(feed + 1));
            }
            start = feed + 1;
        }
    }
    out
}

/// Splits `v` into its words.
pub fn split_words(v: &Vec<char>) -> (out: Vec<Vec<char>>)
    ensures
        texts(out@) == words(v@),
{
    let mut out: Vec<Vec<char>> = Vec::new();
    let mut at: usize = 0;
    proof {
        assert(v@.skip(0) == v@);
    }
    while at < v.len()
        invariant
            at <= v.len(),
            texts(out@) + words(v@.skip(at as int)) == words(v@),
        decreases v.len() - at,
    {
        let ghost rest = v@.skip(at as int);
        if is_whitespace(v[at]) {
            proof {
                assert(rest.skip(1) == v@.skip(at + 1));
            }
            at += 1;
        } else {
            let end = word_end(v, at);
            out.push(slice_of(v, at, end));
            proof {
                lemma_run_len(rest, non_space());
                if end < v.len() {
                    assert(rest.take(end - at) == v@.subrange(at as int, end as int));
                    assert(rest.skip(end - at) == v@.skip(end as int));
                }
            }
            at = end;
        }
    }
    out
}

/// Joins the words `ws[from..]` with one space between each two neighbours.
pub fn join_words(ws: &Vec<Vec<char>>, from: usize) -> (out: Vec<char>)
    requires
        from <= ws.len(),
    ensures
        out@ == joined(texts(ws@).skip(from as int)),
{
    let mut out: Vec<char> = Vec::new();
    let mut i: usize = from;
    while i < ws.len()
        invariant
            from <= i <= ws.len(),
            out@ == joined(texts(ws@).subrange(from as int, i as int)),
        decreases ws.len() - i,
    {
        proof {
            assert(texts(ws@).subrange(from as int, i + 1).drop_last() == texts(ws@).subrange(
                from as int,
                i as int,
            ));
        }
        if i > from {
            out.push(' ');
        }
        extend(&mut out, &ws[i]);
        i += 1;
    }
    out
}

} // verus!
