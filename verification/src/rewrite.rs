//! Rewriting the source shell's operators into those of the destination shell.

use crate::replace::{replace_all, replaced};
use crate::text::{from_chars, to_chars};
use vstd::prelude::*;

verus! {

/// `s` with every `operator` turned into `separator`, which ends the
/// statement before it: first wherever the operator stands with a space
/// before it, in place of both, then wherever the operator still stands.
pub open spec fn separated(s: Seq<char>, operator: Seq<char>, separator: Seq<char>) -> Seq<char> {
    replaced(replaced(s, seq![' '] + operator, separator), operator, separator)
}

/// `cmd` with the source shell's operators rewritten, one kind after another
/// over the whole text: `&&` to the separator `; and`, then `||` to the
/// separator `; or`, then `>>|` to `>>`, then `>|` to `>`. So `a && b` becomes
/// `a; and b`. The longer redirection is rewritten before the shorter, which
/// is its ending.
pub open spec fn rewritten(cmd: Seq<char>) -> Seq<char> {
    let appending = replaced(with_separators(cmd), ">>|"@, ">>"@);
    replaced(appending, ">|"@, ">"@)
}

/// `cmd` with `&&` turned into the separator `; and`, then `||` into the
/// separator `; or`.
pub open spec fn with_separators(cmd: Seq<char>) -> Seq<char> {
    separated(separated(cmd, "&&"@, "; and"@), "||"@, "; or"@)
}

/// Nowhere in `s` does `a` stand with `b` right behind it.
pub open spec fn pair_free(s: Seq<char>, a: char, b: char) -> bool {
    forall|i: int| 0 <= i < s.len() - 1 ==> !(#[trigger] s[i] == a && s[i + 1] == b)
}

/// Rewrites the operators of a command line of the source shell into those of
/// the destination shell. What comes out holds none of the operators, so
/// rewriting it again changes nothing.
pub fn convert_zsh_to_fish(cmd: String) -> (fish_cmd: String)
    ensures
        fish_cmd@ == rewritten(cmd@),
        rewritten(fish_cmd@) == fish_cmd@,
{
    proof {
        lemma_rewriting_is_idempotent(cmd@);
        reveal_strlit(" &&");
        reveal_strlit("&&");
        reveal_strlit(" ||");
        reveal_strlit("||");
        assert(" &&"@ =~= seq![' '] + "&&"@);
        assert(" ||"@ =~= seq![' '] + "||"@);
    }
    let text = to_chars(cmd.as_str());
    let text = replace_all(&text, &to_chars(" &&"), &to_chars("; and"));
    let text = replace_all(&text, &to_chars("&&"), &to_chars("; and"));
    let text = replace_all(&text, &to_chars(" ||"), &to_chars("; or"));
    let text = replace_all(&text, &to_chars("||"), &to_chars("; or"));
    let text = replace_all(&text, &to_chars(">>|"), &to_chars(">>"));
    let text = replace_all(&text, &to_chars(">|"), &to_chars(">"));
    from_chars(&text)
}

/// Replacing leaves a text free of the pair `a`, `b` where the replacement
/// neither holds the pair nor can complete one at either of its ends, and the
/// text was free of the pair or the pair is what is replaced. The result
/// begins with the replacement's first character or with the text's.
pub proof fn lemma_replaced_pair_free(
    s: Seq<char>,
    pattern: Seq<char>,
    replacement: Seq<char>,
    a: char,
    b: char,
)
    requires
        pattern.len() > 0,
        replacement.len() > 0,
        pair_free(replacement, a, b),
        replacement.first() != b,
        replacement.last() != a,
        pair_free(s, a, b) || pattern == seq![a, b],
    ensures
        pair_free(replaced(s, pattern, replacement), a, b),
        s.len() > 0 ==> replaced(s, pattern, replacement).len() > 0 && (replaced(
            s,
            pattern,
            replacement,
        )[0] == replacement[0] || replaced(s, pattern, replacement)[0] == s[0]),
    decreases s.len(),
{
    if s.len() > 0 {
        let rest = if pattern.is_prefix_of(s) {
            s.skip(pattern.len() as int)
        } else {
            s.skip(1)
        };
        lemma_replaced_pair_free(rest, pattern, replacement, a, b);
    }
}

/// Replacing the pair `a`, `b` by `a` alone, in a text where no `b` follows
/// another, leaves a text free of the pair, with the same first character.
pub proof fn lemma_second_dropped(s: Seq<char>, a: char, b: char)
    requires
        a != b,
        pair_free(s, b, b),
    ensures
        pair_free(replaced(s, seq![a, b], seq![a]), a, b),
        s.len() > 0 ==> replaced(s, seq![a, b], seq![a]).len() > 0 && replaced(
            s,
            seq![a, b],
            seq![a],
        )[0] == s[0],
    decreases s.len(),
{
    if s.len() > 0 {
        let rest = if seq![a, b].is_prefix_of(s) {
            s.skip(2)
        } else {
            s.skip(1)
        };
        lemma_second_dropped(rest, a, b);
    }
}

/// Replacing changes nothing in a text that is free of a pair which the
/// pattern holds, at its index `k`.
pub proof fn lemma_replaced_unchanged(
    s: Seq<char>,
    pattern: Seq<char>,
    replacement: Seq<char>,
    k: int,
)
    requires
        0 <= k < pattern.len() - 1,
        pair_free(s, pattern[k], pattern[k + 1]),
    ensures
        replaced(s, pattern, replacement) == s,
    decreases s.len(),
{
    if s.len() > 0 {
        let rest = s.skip(1);
        lemma_replaced_unchanged(rest, pattern, replacement, k);
    }
}

/// In a text where no `b` follows another, replacing `a`, `a`, `b` by `a`,
/// `a` before `a`, `b` is replaced by `a` changes nothing in what comes out:
/// the second replacement alone drops every `b` that the first would drop.
pub proof fn lemma_longer_first_is_shorter_alone(s: Seq<char>, a: char, b: char)
    requires
        a != b,
        pair_free(s, b, b),
    ensures
        replaced(replaced(s, seq![a, a, b], seq![a, a]), seq![a, b], seq![a]) == replaced(
            s,
            seq![a, b],
            seq![a],
        ),
        s.len() > 0 ==> replaced(s, seq![a, a, b], seq![a, a]).len() > 0 && replaced(
            s,
            seq![a, a, b],
            seq![a, a],
        )[0] == s[0],
    decreases s.len(),
{
    let long = seq![a, a, b];
    let short = seq![a, b];
    let longer = |x: Seq<char>| replaced(x, long, seq![a, a]);
    let shorter = |x: Seq<char>| replaced(x, short, seq![a]);
    if s.len() > 0 {
        if long.is_prefix_of(s) {
            let rest = s.skip(3);
            lemma_longer_first_is_shorter_alone(rest, a, b);
            // The longer pattern first leaves `a`, `a` and, of the rest, `kept`;
            // the shorter pattern then finds nothing to replace in `a`, `a`.
            let kept = longer(rest);
            assert((seq![a, a] + kept).skip(1) == seq![a] + kept);
            assert((seq![a] + kept).skip(1) == kept);
            assert(shorter(seq![a] + kept) == seq![a] + shorter(kept));
            // The shorter pattern alone keeps the first `a` and replaces
            // `a`, `b` behind it.
            assert(s.skip(1).skip(2) == rest);
            assert(shorter(s.skip(1)) == seq![a] + shorter(rest));
        } else {
            let rest = s.skip(1);
            let kept = longer(rest);
            lemma_longer_first_is_shorter_alone(rest, a, b);
            assert((seq![s[0]] + kept).skip(1) == kept);
            if short.is_prefix_of(s) {
                let behind = s.skip(2);
                assert(rest.skip(1) == behind);
                assert((seq![s[0]] + kept).skip(2) == longer(behind));
                lemma_longer_first_is_shorter_alone(behind, a, b);
            }
        }
    }
}

/// A rewritten text holds none of the operators that rewriting replaces.
pub proof fn lemma_rewritten_holds_no_operator(cmd: Seq<char>)
    ensures
        pair_free(rewritten(cmd), '&', '&'),
        pair_free(rewritten(cmd), '|', '|'),
        pair_free(rewritten(cmd), '>', '|'),
{
    reveal_strlit("&&");
    reveal_strlit("; and");
    reveal_strlit("||");
    reveal_strlit("; or");
    reveal_strlit(">>|");
    reveal_strlit(">>");
    reveal_strlit(">|");
    reveal_strlit(">");
    assert("&&"@ =~= seq!['&', '&']);
    assert("||"@ =~= seq!['|', '|']);
    assert(">|"@ =~= seq!['>', '|']);
    assert(">"@ =~= seq!['>']);
    let and_spaced = replaced(cmd, seq![' '] + "&&"@, "; and"@);
    let joined_by_and = replaced(and_spaced, "&&"@, "; and"@);
    let or_spaced = replaced(joined_by_and, seq![' '] + "||"@, "; or"@);
    let joined_by_or = with_separators(cmd);
    let appending = replaced(joined_by_or, ">>|"@, ">>"@);
    lemma_replaced_pair_free(and_spaced, "&&"@, "; and"@, '&', '&');
    lemma_replaced_pair_free(joined_by_and, seq![' '] + "||"@, "; or"@, '&', '&');
    lemma_replaced_pair_free(or_spaced, "||"@, "; or"@, '&', '&');
    lemma_replaced_pair_free(or_spaced, "||"@, "; or"@, '|', '|');
    lemma_replaced_pair_free(joined_by_or, ">>|"@, ">>"@, '&', '&');
    lemma_replaced_pair_free(joined_by_or, ">>|"@, ">>"@, '|', '|');
    lemma_replaced_pair_free(appending, ">|"@, ">"@, '&', '&');
    lemma_replaced_pair_free(appending, ">|"@, ">"@, '|', '|');
    lemma_second_dropped(appending, '>', '|');
}

/// The two redirections can be rewritten in either order, and the shorter
/// alone rewrites the longer too: the text that comes out is the same.
pub proof fn lemma_redirections_in_either_order(cmd: Seq<char>)
    ensures
        rewritten(cmd) == replaced(with_separators(cmd), ">|"@, ">"@),
        rewritten(cmd) == replaced(
            replaced(with_separators(cmd), ">|"@, ">"@),
            ">>|"@,
            ">>"@,
        ),
{
    reveal_strlit("||");
    reveal_strlit("; or");
    reveal_strlit(">>|");
    reveal_strlit(">>");
    reveal_strlit(">|");
    reveal_strlit(">");
    assert("||"@ =~= seq!['|', '|']);
    assert(">>|"@ =~= seq!['>', '>', '|']);
    assert(">>"@ =~= seq!['>', '>']);
    assert(">|"@ =~= seq!['>', '|']);
    assert(">"@ =~= seq!['>']);
    let joined_by_and = separated(cmd, "&&"@, "; and"@);
    let or_spaced = replaced(joined_by_and, seq![' '] + "||"@, "; or"@);
    let joined = with_separators(cmd);
    lemma_replaced_pair_free(or_spaced, "||"@, "; or"@, '|', '|');
    lemma_longer_first_is_shorter_alone(joined, '>', '|');
    lemma_second_dropped(joined, '>', '|');
    lemma_replaced_unchanged(replaced(joined, ">|"@, ">"@), ">>|"@, ">>"@, 1);
}

/// Rewriting a rewritten text changes nothing.
pub proof fn lemma_rewriting_is_idempotent(cmd: Seq<char>)
    ensures
        rewritten(rewritten(cmd)) == rewritten(cmd),
{
    reveal_strlit("&&");
    reveal_strlit("||");
    reveal_strlit(">>|");
    reveal_strlit(">|");
    let once = rewritten(cmd);
    lemma_rewritten_holds_no_operator(cmd);
    lemma_replaced_unchanged(once, seq![' '] + "&&"@, "; and"@, 1);
    lemma_replaced_unchanged(once, "&&"@, "; and"@, 0);
    lemma_replaced_unchanged(once, seq![' '] + "||"@, "; or"@, 1);
    lemma_replaced_unchanged(once, "||"@, "; or"@, 0);
    lemma_replaced_unchanged(once, ">>|"@, ">>"@, 1);
    lemma_replaced_unchanged(once, ">|"@, ">"@, 0);
}

} // verus!
