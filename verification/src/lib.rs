//! Migrating the command history of zsh to fish: reading zsh's listings of
//! its aliases and of its history, translating each command line (the alias
//! it begins with expanded, zsh's operators rewritten into those of fish),
//! and writing the entries as fish keeps them.

pub mod alias;
pub mod canonical;
pub mod history;
pub mod replace;
pub mod rewrite;
pub mod split;
pub mod text;
pub mod translate;
pub mod writer;

pub use crate::alias::{parse_alias_line, parse_aliases, AliasTable};
pub use crate::canonical::{canonicalize_command, TranslateError};
pub use crate::history::{parse_history, parse_history_line, HistoryEntry, HistoryError};
pub use crate::rewrite::convert_zsh_to_fish;
pub use crate::translate::{translate_command, translate_entry, translate_history, TranslatedEntry};
pub use crate::writer::{format_entry, format_history};
