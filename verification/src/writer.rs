//! The text in which the destination shell keeps its history.

use crate::history::{all_digits, number, timestamp_of, without_plus, Record};
use crate::translate::TranslatedEntry;
use vstd::prelude::*;
use vstd::string::StringExecFns;

verus! {

/// The character that writes the digit `d`.
pub open spec fn digit_char(d: nat) -> char {
    (0x30 + d) as u8 as char
}

/// The decimal digits that write `n`, without leading zeros.
pub open spec fn decimal(n: nat) -> Seq<char>
    decreases n,
{
    if n < 10 {
        seq![digit_char(n)]
    } else {
        decimal(n / 10).push(digit_char(n % 10))
    }
}

/// The two lines that record one entry in the destination shell's history:
/// the command line as it is, then the timestamp.
pub open spec fn entry_text(entry: Record) -> Seq<char> {
    "- cmd: "@ + entry.command + "\n  when: "@ + decimal(entry.timestamp as nat) + "\n"@
}

/// The lines that record `entries`, entry after entry.
pub open spec fn history_text(entries: Seq<Record>) -> Seq<char>
    decreases entries.len(),
{
    if entries.len() == 0 {
        Seq::empty()
    } else {
        history_text(entries.drop_last()) + entry_text(entries.last())
    }
}

/// What a vector of translated entries holds, as plain values.
pub open spec fn records(entries: Seq<TranslatedEntry>) -> Seq<Record> {
    Seq::new(entries.len(), |i: int| entries[i]@)
}

/// Appends the decimal digits of `n` to `text`.
pub fn push_decimal(text: &mut String, n: u64)
    ensures
        final(text)@ == old(text)@ + decimal(n as nat),
    decreases n,
{
    if n >= 10 {
        push_decimal(text, n / 10);
    }
    let digit: u8 = (n % 10) as u8;
    text.push((0x30 + digit) as char);
}

/// The text that records one entry.
pub fn format_entry(entry: &TranslatedEntry) -> (text: String)
    ensures
        text@ == entry_text(entry@),
{
    let mut text = String::from_str("- cmd: ");
    text.append(entry.command.as_str());
    text.append("\n  when: ");
    push_decimal(&mut text, entry.timestamp);
    text.append("\n");
    text
}

/// The text that records `entries`, in their order.
pub fn format_history(entries: &Vec<TranslatedEntry>) -> (text: String)
    ensures
        text@ == history_text(records(entries@)),
{
    let mut text = String::new();
    let mut i: usize = 0;
    while i < entries.len()
        invariant
            i <= entries.len(),
            text@ == history_text(records(entries@).take(i as int)),
        decreases entries.len() - i,
    {
        proof {
            let next = records(entries@).take(i + 1);
            assert(next.drop_last() == records(entries@).take(i as int));
        }
        let line = format_entry(&entries[i]);
        text.append(line.as_str());
        i += 1;
    }
    proof {
        assert(records(entries@).take(i as int) == records(entries@));
    }
    text
}

/// The digits written for a number are digits, do not begin with a sign, and
/// write that number.
pub proof fn lemma_decimal_writes(n: nat)
    ensures
        decimal(n).len() > 0,
        all_digits(decimal(n)),
        without_plus(decimal(n)) == decimal(n),
        number(decimal(n)) == n,
    decreases n,
{
    if n < 10 {
        assert(number(decimal(n).drop_last()) == 0);
    } else {
        lemma_decimal_writes(n / 10);
        let front = decimal(n / 10);
        assert(decimal(n).drop_last() =~= front);
    }
}

/// A timestamp is read back as it was written.
pub proof fn lemma_timestamp_round_trip(timestamp: u64)
    ensures
        timestamp_of(decimal(timestamp as nat)) == Some(timestamp),
{
    lemma_decimal_writes(timestamp as nat);
}

} // verus!
