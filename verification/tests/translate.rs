use zsh2fish::{
    translate_command, translate_entry, translate_history, AliasTable, HistoryEntry,
    TranslateError, TranslatedEntry,
};

fn table(bindings: &[(&str, &str)]) -> AliasTable {
    let mut table = AliasTable::new();
    for (name, expansion) in bindings {
        assert!(table.insert(name.to_string(), expansion.to_string()));
    }
    table
}

fn entry(timestamp: u64, command: &str) -> HistoryEntry {
    HistoryEntry { timestamp, command: command.to_string() }
}

fn made(timestamp: u64, command: &str) -> Result<TranslatedEntry, TranslateError> {
    Ok(TranslatedEntry { timestamp, command: command.to_string() })
}

#[test]
fn command_is_expanded_then_rewritten() {
    let aliases = table(&[("ll", "ls -la")]);
    assert_eq!(
        translate_command("ll /tmp && ll >| out".to_string(), &aliases),
        Ok("ls -la /tmp; and ll > out".to_string())
    );
}

#[test]
fn operators_of_an_expansion_are_rewritten() {
    let aliases = table(&[("b", "make && make install"), ("log", "tee >>| log.txt")]);
    assert_eq!(
        translate_command("b".to_string(), &aliases),
        Ok("make; and make install".to_string())
    );
    assert_eq!(
        translate_command("log || true".to_string(), &aliases),
        Ok("tee >> log.txt; or true".to_string())
    );
}

#[test]
fn command_without_alias_or_operator_is_kept() {
    let aliases = table(&[("ll", "ls -la")]);
    assert_eq!(translate_command("git status".to_string(), &aliases), Ok("git status".to_string()));
}

#[test]
fn blank_command_has_no_translation() {
    let aliases = table(&[("ll", "ls -la")]);
    assert_eq!(translate_command("".to_string(), &aliases), Err(TranslateError::EmptyCommand));
    assert_eq!(translate_command("  ".to_string(), &aliases), Err(TranslateError::EmptyCommand));
}

#[test]
fn entry_keeps_its_timestamp() {
    let aliases = table(&[("ll", "ls -la")]);
    assert_eq!(translate_entry(&entry(1700000000, "ll"), &aliases), made(1700000000, "ls -la"));
    assert_eq!(translate_entry(&entry(0, "a || b"), &aliases), made(0, "a; or b"));
    assert_eq!(translate_entry(&entry(u64::MAX, "x"), &aliases), made(u64::MAX, "x"));
}

#[test]
fn entry_with_a_blank_command_fails() {
    let aliases = AliasTable::new();
    assert_eq!(translate_entry(&entry(5, ""), &aliases), Err(TranslateError::EmptyCommand));
    assert_eq!(translate_entry(&entry(5, " \t"), &aliases), Err(TranslateError::EmptyCommand));
}

#[test]
fn history_is_translated_entry_by_entry_in_order() {
    let aliases = table(&[("ll", "ls -la"), ("g", "git")]);
    let entries = vec![
        entry(30, "ll /tmp"),
        entry(10, "g pull && g push"),
        entry(20, "cat a >| b"),
        entry(20, "cat a >| b"),
        entry(40, "true"),
    ];
    assert_eq!(
        translate_history(&entries, &aliases),
        vec![
            made(30, "ls -la /tmp"),
            made(10, "git pull; and g push"),
            made(20, "cat a > b"),
            made(20, "cat a > b"),
            made(40, "true"),
        ]
    );
}

#[test]
fn history_yields_as_many_outcomes_as_entries() {
    let aliases = table(&[("ll", "ls -la")]);
    for n in [0usize, 1, 2, 17, 100] {
        let entries: Vec<HistoryEntry> =
            (0..n).map(|i| entry(1000 + i as u64, &format!("ll {}", i))).collect();
        let done = translate_history(&entries, &aliases);
        assert_eq!(done.len(), n);
        for (i, outcome) in done.iter().enumerate() {
            assert_eq!(*outcome, made(1000 + i as u64, &format!("ls -la {}", i)));
        }
    }
}

#[test]
fn history_reports_a_blank_command_in_its_place() {
    let aliases = table(&[("ll", "ls -la")]);
    let entries = vec![entry(1, "ll"), entry(2, ""), entry(3, "  "), entry(4, "pwd")];
    assert_eq!(
        translate_history(&entries, &aliases),
        vec![
            made(1, "ls -la"),
            Err(TranslateError::EmptyCommand),
            Err(TranslateError::EmptyCommand),
            made(4, "pwd"),
        ]
    );
}

#[test]
fn history_leaves_its_entries_and_the_table_as_they_were() {
    let aliases = table(&[("ll", "ls -la")]);
    let entries = vec![entry(1, "ll && ll")];
    let first = translate_history(&entries, &aliases);
    let second = translate_history(&entries, &aliases);
    assert_eq!(first, second);
    assert_eq!(entries, vec![entry(1, "ll && ll")]);
    assert_eq!(aliases.len(), 1);
    assert_eq!(aliases.get("ll"), Some(&"ls -la".to_string()));
}
