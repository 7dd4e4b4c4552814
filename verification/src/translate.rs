//! Translating history entries: canonical form first, operators second.

use crate::alias::AliasTable;
use crate::canonical::{canonical, canonicalize_command, TranslateError};
use crate::history::{HistoryEntry, Record};
use crate::rewrite::{convert_zsh_to_fish, rewritten};
use crate::text::is_blank;
use vstd::prelude::*;

verus! {

/// A history entry whose command line has been translated. The timestamp is
/// that of the entry it was made from.
#[derive(Debug, Clone, PartialEq, Eq)]
pub struct TranslatedEntry {
    pub timestamp: u64,
    pub command: String,
}

impl View for TranslatedEntry {
    type V = Record;

    open spec fn view(&self) -> Record {
        Record { timestamp: self.timestamp, command: self.command@ }
    }
}

/// The translation of a command line: its canonical form with the operators
/// rewritten; or the reason why it has none.
pub open spec fn translated(cmd: Seq<char>, table: Map<Seq<char>, Seq<char>>) -> Result<
    Seq<char>,
    TranslateError,
> {
    match canonical(cmd, table) {
        Ok(text) => Ok(rewritten(text)),
        Err(error) => Err(error),
    }
}

/// The translation of an entry: its command line translated, its timestamp as
/// it was.
pub open spec fn translated_record(entry: Record, table: Map<Seq<char>, Seq<char>>) -> Result<
    Record,
    TranslateError,
> {
    match translated(entry.command, table) {
        Ok(command) => Ok(Record { timestamp: entry.timestamp, command }),
        Err(error) => Err(error),
    }
}

/// What translating an entry came to, as plain values.
pub open spec fn translation(done: Result<TranslatedEntry, TranslateError>) -> Result<
    Record,
    TranslateError,
> {
    match done {
        Ok(entry) => Ok(entry@),
        Err(error) => Err(error),
    }
}

/// Translates a command line.
pub fn translate_command(cmd: String, aliases: &AliasTable) -> (done: Result<
    String,
    TranslateError,
>)
    ensures
        match done {
            Ok(text) => translated(cmd@, aliases@) == Ok::<Seq<char>, TranslateError>(text@),
            Err(error) => translated(cmd@, aliases@) == Err::<Seq<char>, TranslateError>(error),
        },
        done is Err <==> is_blank(cmd@),
{
    match canonicalize_command(cmd, aliases) {
        Ok(text) => Ok(convert_zsh_to_fish(text)),
        Err(error) => Err(error),
    }
}

/// Translates an entry.
pub fn translate_entry(entry: &HistoryEntry, aliases: &AliasTable) -> (done: Result<
    TranslatedEntry,
    TranslateError,
>)
    ensures
        translation(done) == translated_record(entry@, aliases@),
        done is Err <==> is_blank(entry.command@),
        done matches Ok(made) ==> made.timestamp == entry.timestamp,
{
    match translate_command(entry.command.clone(), aliases) {
        Ok(command) => Ok(TranslatedEntry { timestamp: entry.timestamp, command }),
        Err(error) => Err(error),
    }
}

/// Translates the entries of a history, each by itself and in their order:
/// as many outcomes as entries, the outcome at an index being that of the
/// entry at that index. No entry is left out, none is added and none changes
/// its place or its timestamp; an entry fails where its command line is
/// blank, and only there.
pub fn translate_history(entries: &Vec<HistoryEntry>, aliases: &AliasTable) -> (done: Vec<
    Result<TranslatedEntry, TranslateError>,
>)
    ensures
        done.len() == entries.len(),
        forall|i: int|
            0 <= i < done.len() ==> translation(#[trigger] done[i]) == translated_record(
                entries[i]@,
                aliases@,
            ),
        forall|i: int|
            0 <= i < done.len() ==> (#[trigger] done[i] is Err <==> is_blank(entries[i].command@)),
        forall|i: int|
            0 <= i < done.len() ==> (#[trigger] done[i] matches Ok(made) ==> made.timestamp
                == entries[i].timestamp),
{
    let mut done: Vec<Result<TranslatedEntry, TranslateError>> = Vec::new();
    let mut i: usize = 0;
    while i < entries.len()
        invariant
            i <= entries.len(),
            done.len() == i,
            forall|j: int|
                0 <= j < i ==> translation(#[trigger] done[j]) == translated_record(
                    entries[j]@,
                    aliases@,
                ),
            forall|j: int|
                0 <= j < i ==> (#[trigger] done[j] is Err <==> is_blank(entries[j].command@)),
            forall|j: int|
                0 <= j < i ==> (#[trigger] done[j] matches Ok(made) ==> made.timestamp
                    == entries[j].timestamp),
        decreases entries.len() - i,
    {
        done.push(translate_entry(&entries[i], aliases));
        i += 1;
    }
    done
}

/// The translations of the entries of a history, each at the index of its
/// entry.
pub open spec fn translated_history(
    entries: Seq<Record>,
    table: Map<Seq<char>, Seq<char>>,
) -> Seq<Result<Record, TranslateError>> {
    Seq::new(entries.len(), |i: int| translated_record(entries[i], table))
}

/// A history none of whose command lines is blank has as many translations
/// as entries, each at the index of its entry and with its entry's timestamp.
pub proof fn lemma_translation_keeps_count_order_and_time(
    entries: Seq<Record>,
    table: Map<Seq<char>, Seq<char>>,
)
    requires
        forall|i: int| 0 <= i < entries.len() ==> !is_blank(#[trigger] entries[i].command),
    ensures
        translated_history(entries, table).len() == entries.len(),
        forall|i: int|
            0 <= i < entries.len() ==> (#[trigger] translated_history(entries, table)[i]
                matches Ok(made) && made.timestamp == entries[i].timestamp && Ok::<
                Seq<char>,
                TranslateError,
            >(made.command) == translated(entries[i].command, table)),
{
}

} // verus!
