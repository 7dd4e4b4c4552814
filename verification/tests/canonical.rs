use zsh2fish::{canonicalize_command, AliasTable, TranslateError};

fn table(bindings: &[(&str, &str)]) -> AliasTable {
    let mut table = AliasTable::new();
    for (name, expansion) in bindings {
        assert!(table.insert(name.to_string(), expansion.to_string()));
    }
    table
}

fn canonical(cmd: &str, aliases: &AliasTable) -> Result<String, TranslateError> {
    canonicalize_command(cmd.to_string(), aliases)
}

fn text(s: &str) -> Result<String, TranslateError> {
    Ok(s.to_string())
}

#[test]
fn alias_alone_becomes_its_expansion() {
    let aliases = table(&[("ll", "ls -la")]);
    assert_eq!(canonical("ll", &aliases), text("ls -la"));
}

#[test]
fn alias_with_arguments_keeps_them() {
    let aliases = table(&[("ll", "ls -la")]);
    assert_eq!(canonical("ll /tmp", &aliases), text("ls -la /tmp"));
}

#[test]
fn command_that_is_no_alias_is_kept() {
    let aliases = table(&[("ll", "ls -la")]);
    for cmd in ["ls", "git status", "l", "lll /tmp", "echo ll", "  ls  -la  ", "LL", "ll=3"] {
        assert_eq!(canonical(cmd, &aliases), text(cmd));
    }
    let none = AliasTable::new();
    for cmd in ["ll", "ll /tmp", "日本語 テキスト"] {
        assert_eq!(canonical(cmd, &none), text(cmd));
    }
}

#[test]
fn expansion_is_not_expanded_again() {
    let aliases = table(&[("a", "b"), ("b", "c")]);
    assert_eq!(canonical("a", &aliases), text("b"));
    assert_ne!(canonical("a", &aliases), text("c"));
    assert_eq!(canonical("a x", &aliases), text("b x"));
    assert_eq!(canonical("b", &aliases), text("c"));
}

#[test]
fn alias_to_itself_is_expanded_once() {
    let aliases = table(&[("ls", "ls --color"), ("grep", "grep -n")]);
    assert_eq!(canonical("ls /tmp", &aliases), text("ls --color /tmp"));
    assert_eq!(canonical("grep x y", &aliases), text("grep -n x y"));
}

#[test]
fn only_the_first_word_is_looked_up() {
    let aliases = table(&[("ll", "ls -la"), ("g", "git")]);
    assert_eq!(canonical("g ll", &aliases), text("git ll"));
    assert_eq!(canonical("sudo ll", &aliases), text("sudo ll"));
}

#[test]
fn blank_command_is_an_error() {
    let aliases = table(&[("ll", "ls -la")]);
    for cmd in ["", " ", "   ", "\t", " \n ", "\u{3000}"] {
        assert_eq!(canonical(cmd, &aliases), Err(TranslateError::EmptyCommand));
    }
    assert_eq!(canonical("", &AliasTable::new()), Err(TranslateError::EmptyCommand));
}

#[test]
fn remainder_is_kept_as_it_stands() {
    let aliases = table(&[("ll", "ls -la")]);
    assert_eq!(canonical("ll  /tmp", &aliases), text("ls -la  /tmp"));
    assert_eq!(canonical("ll /tmp   /var ", &aliases), text("ls -la /tmp   /var "));
    assert_eq!(canonical("ll 'a  b' && ll", &aliases), text("ls -la 'a  b' && ll"));
}

#[test]
fn white_space_behind_the_alias_counts_as_more() {
    let aliases = table(&[("ll", "ls -la")]);
    assert_eq!(canonical("ll ", &aliases), text("ls -la "));
}

#[test]
fn any_white_space_ends_the_first_word() {
    let aliases = table(&[("ll", "ls -la")]);
    assert_eq!(canonical("ll\t/tmp", &aliases), text("ls -la /tmp"));
    assert_eq!(canonical("ll\n/tmp", &aliases), text("ls -la /tmp"));
    assert_eq!(canonical("ll\u{3000}/tmp", &aliases), text("ls -la /tmp"));
}

#[test]
fn white_space_before_the_alias_is_not_part_of_it() {
    let aliases = table(&[("ll", "ls -la")]);
    assert_eq!(canonical(" ll", &aliases), text("ls -la"));
    assert_eq!(canonical("  ll /tmp", &aliases), text("ls -la /tmp"));
    assert_eq!(canonical("\tll\t/tmp", &aliases), text("ls -la /tmp"));
}

#[test]
fn empty_expansion() {
    let aliases = table(&[("nop", "")]);
    assert_eq!(canonical("nop", &aliases), text(""));
    assert_eq!(canonical("nop x", &aliases), text(" x"));
}

#[test]
fn names_and_text_beyond_ascii() {
    let aliases = table(&[("é", "echo ü"), ("ll", "ls -la")]);
    assert_eq!(canonical("é → x", &aliases), text("echo ü → x"));
    assert_eq!(canonical("ll 日本語", &aliases), text("ls -la 日本語"));
}
