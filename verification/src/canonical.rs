//! Canonical form of a command line: the alias that it begins with, expanded.

use crate::alias::{is_alias_name, AliasTable};
use crate::split::words;
use crate::text::{
    is_blank, is_space, leading_spaces, lemma_run_len, lemma_run_len_is, non_space, skip_spaces,
    space, string_of, to_chars, word_end, word_len,
};
use vstd::prelude::*;

verus! {

/// Why a command line has no translation.
#[derive(Debug, Clone, Copy, PartialEq, Eq)]
pub enum TranslateError {
    /// The command line is empty or holds white space only, so it names no
    /// command.
    EmptyCommand,
}

/// Where the first word of `cmd` ends: the index behind its last character.
pub open spec fn arg0_end(cmd: Seq<char>) -> nat {
    leading_spaces(cmd) + word_len(cmd.skip(leading_spaces(cmd) as int))
}

/// The first word of `cmd`, which names the command.
pub open spec fn arg0(cmd: Seq<char>) -> Seq<char> {
    cmd.subrange(leading_spaces(cmd) as int, arg0_end(cmd) as int)
}

/// What stands in `cmd` behind its first word and the one white-space
/// character that ends the word.
pub open spec fn remainder(cmd: Seq<char>) -> Seq<char> {
    cmd.skip(arg0_end(cmd) as int + 1)
}

/// The canonical form of a command line that is not blank. Where its first
/// word is an alias, that is the alias's expansion, followed, if the line goes
/// on behind the word, by one space and the remainder. Where it is none, that
/// is the line itself.
pub open spec fn expanded(cmd: Seq<char>, table: Map<Seq<char>, Seq<char>>) -> Seq<char> {
    if table.contains_key(arg0(cmd)) {
        if arg0_end(cmd) < cmd.len() {
            table[arg0(cmd)] + seq![' '] + remainder(cmd)
        } else {
            table[arg0(cmd)]
        }
    } else {
        cmd
    }
}

/// The canonical form of a command line, or the reason why it has none.
pub open spec fn canonical(cmd: Seq<char>, table: Map<Seq<char>, Seq<char>>) -> Result<
    Seq<char>,
    TranslateError,
> {
    if is_blank(cmd) {
        Err(TranslateError::EmptyCommand)
    } else {
        Ok(expanded(cmd, table))
    }
}

/// A text is blank where its leading white space is all of it, and only there.
pub proof fn lemma_blank_is_all_leading_space(s: Seq<char>)
    ensures
        is_blank(s) <==> leading_spaces(s) == s.len(),
{
    lemma_run_len(s, space());
    if is_blank(s) {
        lemma_run_len_is(s, space(), s.len() as int);
    }
}

/// The first word of a command line that is not blank is the first of its
/// words.
pub proof fn lemma_arg0_is_first_word(cmd: Seq<char>)
    requires
        !is_blank(cmd),
    ensures
        words(cmd).len() > 0,
        words(cmd)[0] == arg0(cmd),
    decreases cmd.len(),
{
    lemma_run_len(cmd, space());
    lemma_run_len(cmd, non_space());
    if is_space(cmd[0]) {
        let rest = cmd.skip(1);
        assert(!is_blank(rest)) by {
            if is_blank(rest) {
                assert forall|i: int| 0 <= i < cmd.len() implies is_space(#[trigger] cmd[i]) by {
                    if i > 0 {
                        assert(cmd[i] == rest[i - 1]);
                    }
                }
            }
        }
        lemma_arg0_is_first_word(rest);
        lemma_run_len(rest, space());
        let skipped = leading_spaces(rest) as int;
        assert(cmd.skip(skipped + 1) == rest.skip(skipped));
        lemma_run_len(rest.skip(skipped), non_space());
        assert(cmd.subrange(skipped + 1, arg0_end(cmd) as int) == rest.subrange(
            skipped,
            arg0_end(rest) as int,
        ));
    } else {
        assert(cmd.subrange(0, cmd.len() as int) == cmd);
    }
}

/// Expands the alias that `cmd` begins with. The alias is looked up once:
/// what it expands to is not looked up again.
pub fn canonicalize_command(cmd: String, aliases: &AliasTable) -> (done: Result<
    String,
    TranslateError,
>)
    ensures
        match done {
            Ok(text) => canonical(cmd@, aliases@) == Ok::<Seq<char>, TranslateError>(text@),
            Err(error) => canonical(cmd@, aliases@) == Err::<Seq<char>, TranslateError>(error),
        },
        done is Err <==> is_blank(cmd@),
        !is_blank(cmd@) && !aliases@.contains_key(arg0(cmd@)) ==> done == Ok::<
            String,
            TranslateError,
        >(cmd),
{
    let chars = to_chars(cmd.as_str());
    let n = chars.len();
    let start = skip_spaces(&chars, 0);
    proof {
        assert(chars@.skip(0) == chars@);
        lemma_blank_is_all_leading_space(cmd@);
    }
    if start == n {
        return Err(TranslateError::EmptyCommand);
    }
    let end = word_end(&chars, start);
    let name = string_of(&chars, start, end);
    match aliases.get(name.as_str()) {
        None => Ok(cmd),
        Some(expansion) => {
            let mut text = expansion.clone();
            if end < n {
                text.push(' ');
                let mut i: usize = end + 1;
                while i < n
                    invariant
                        end < i <= n,
                        n == chars.len(),
                        text@ == expansion@ + seq![' '] + chars@.subrange(end + 1, i as int),
                    decreases n - i,
                {
                    text.push(chars[i]);
                    i += 1;
                }
            }
            Ok(text)
        },
    }
}

/// A command line that begins with an alias and goes on, after one space,
/// with `rest` becomes the alias's expansion, one space and `rest`; the alias
/// alone becomes its expansion alone.
pub proof fn lemma_alias_is_expanded(
    name: Seq<char>,
    expansion: Seq<char>,
    rest: Seq<char>,
    table: Map<Seq<char>, Seq<char>>,
)
    requires
        is_alias_name(name),
        table.contains_key(name),
        table[name] == expansion,
    ensures
        canonical(name + seq![' '] + rest, table) == Ok::<Seq<char>, TranslateError>(
            expansion + seq![' '] + rest,
        ),
        canonical(name, table) == Ok::<Seq<char>, TranslateError>(expansion),
{
    let n = name.len() as int;
    let cmd = name + seq![' '] + rest;
    assert(cmd.skip(0) == cmd);
    lemma_run_len_is(name, space(), 0);
    lemma_run_len_is(cmd, space(), 0);
    lemma_run_len_is(name, non_space(), n);
    lemma_run_len_is(cmd, non_space(), n);
    assert(cmd.subrange(0, n) == name);
    assert(name.subrange(0, n) == name);
    assert(cmd.skip(n + 1) == rest);
}

/// The canonical form depends on no binding but that of the first word: what
/// the table binds the words of an expansion to plays no part.
pub proof fn lemma_alias_is_expanded_once(cmd: Seq<char>, table: Map<Seq<char>, Seq<char>>)
    requires
        table.contains_key(arg0(cmd)),
    ensures
        canonical(cmd, table) == canonical(cmd, map![arg0(cmd) => table[arg0(cmd)]]),
{
}

} // verus!
