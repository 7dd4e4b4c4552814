//! History entries, and how the shell's listing of its history is read into
//! them.

use crate::split::{
    join_words, joined, lemma_words_are_words, lemma_words_of_joined, lines, split_lines,
    split_words, texts, words,
};
use crate::text::{from_chars, to_chars};
use vstd::prelude::*;

verus! {

/// One recorded command line and the time it was recorded at, in seconds
/// since the epoch.
#[derive(Debug, Clone, PartialEq, Eq)]
pub struct HistoryEntry {
    pub timestamp: u64,
    pub command: String,
}

/// What an entry holds, as plain values.
pub struct Record {
    pub timestamp: u64,
    pub command: Seq<char>,
}

impl View for HistoryEntry {
    type V = Record;

    open spec fn view(&self) -> Record {
        Record { timestamp: self.timestamp, command: self.command@ }
    }
}

/// Why a line of a history listing gives no entry.
#[derive(Debug, Clone, Copy, PartialEq, Eq)]
pub enum HistoryError {
    /// The line has fewer than two words, so none stands where the timestamp
    /// belongs.
    MissingTimestamp,
    /// The second word is no decimal number that fits in 64 bits.
    InvalidTimestamp,
}

/// Whether `c` is one of the digits `0` to `9`.
pub open spec fn is_digit(c: char) -> bool {
    '0' as u32 <= c as u32 <= '9' as u32
}

/// The number that the decimal digits `digits` write.
pub open spec fn number(digits: Seq<char>) -> nat
    decreases digits.len(),
{
    if digits.len() == 0 {
        0
    } else {
        (number(digits.drop_last()) * 10 + (digits.last() as u32 - '0' as u32)) as nat
    }
}

/// Whether `s` holds decimal digits only.
pub open spec fn all_digits(s: Seq<char>) -> bool {
    forall|i: int| 0 <= i < s.len() ==> is_digit(#[trigger] s[i])
}

/// `word` without the `+` that it begins with, if it begins with one.
pub open spec fn without_plus(word: Seq<char>) -> Seq<char> {
    if word.len() > 0 && word[0] == '+' {
        word.skip(1)
    } else {
        word
    }
}

/// The timestamp that `word` writes: one or more decimal digits, after a `+`
/// or after nothing, whose number fits in 64 bits.
pub open spec fn timestamp_of(word: Seq<char>) -> Option<u64> {
    let digits = without_plus(word);
    if digits.len() > 0 && all_digits(digits) && number(digits) <= u64::MAX {
        Some(number(digits) as u64)
    } else {
        None
    }
}

/// The entry that one line of a history listing records. The line's first
/// word, its number in the listing, is passed over; the second is the
/// timestamp; the command is the remaining words with one space between each
/// two.
pub open spec fn history_record(line: Seq<char>) -> Result<Record, HistoryError> {
    let ws = words(line);
    if ws.len() < 2 {
        Err(HistoryError::MissingTimestamp)
    } else {
        match timestamp_of(ws[1]) {
            Some(timestamp) => Ok(Record { timestamp, command: joined(ws.skip(2)) }),
            None => Err(HistoryError::InvalidTimestamp),
        }
    }
}

/// What reading a line came to, as plain values.
pub open spec fn outcome(read: Result<HistoryEntry, HistoryError>) -> Result<Record, HistoryError> {
    match read {
        Ok(entry) => Ok(entry@),
        Err(error) => Err(error),
    }
}

/// The command of an entry holds the words of its line that stand behind the
/// timestamp, in their order: of the line's text, only the white space
/// between words is not kept.
pub proof fn lemma_command_keeps_the_words(line: Seq<char>)
    requires
        history_record(line) is Ok,
    ensures
        words(history_record(line)->Ok_0.command) == words(line).skip(2),
{
    lemma_words_are_words(line);
    lemma_words_of_joined(words(line).skip(2));
}

/// The digits read so far never write more than all of them do.
proof fn lemma_number_grows(digits: Seq<char>, k: int)
    requires
        0 <= k <= digits.len(),
        all_digits(digits),
    ensures
        number(digits.take(k)) <= number(digits),
    decreases digits.len(),
{
    if k == digits.len() {
        assert(digits.take(k) == digits);
    } else {
        assert(digits.drop_last().take(k) == digits.take(k));
        lemma_number_grows(digits.drop_last(), k);
    }
}

/// Reads a timestamp from the characters of a word.
pub fn parse_timestamp(word: &Vec<char>) -> (read: Option<u64>)
    ensures
        read == timestamp_of(word@),
{
    let n = word.len();
    let start: usize = if n > 0 && word[0] == '+' {
        1
    } else {
        0
    };
    if start == n {
        return None;
    }
    let ghost digits = without_plus(word@);
    let mut value: u64 = 0;
    let mut i: usize = start;
    while i < n
        invariant
            start <= i <= n,
            n == word.len(),
            digits == without_plus(word@),
            digits == word@.skip(start as int),
            digits.len() > 0,
            all_digits(digits.take(i - start)),
            value == number(digits.take(i - start)),
        decreases n - i,
    {
        let c: u32 = word[i] as u32;
        if c < 0x30 || c > 0x39 {
            assert(!is_digit(digits[i - start]));
            return None;
        }
        let digit: u64 = (c - 0x30) as u64;
        proof {
            let next = digits.take(i - start + 1);
            assert(next.drop_last() == digits.take(i - start));
            if value * 10 + digit > u64::MAX && all_digits(digits) {
                lemma_number_grows(digits, i - start + 1);
            }
        }
        let tens = match value.checked_mul(10) {
            Some(tens) => tens,
            None => {
                return None;
            },
        };
        value = match tens.checked_add(digit) {
            Some(sum) => sum,
            None => {
                return None;
            },
        };
        i += 1;
    }
    proof {
        assert(digits.take(i - start) == digits);
    }
    Some(value)
}

/// Reads the entry of one line of a history listing, given as its characters.
pub fn record_of(line: &Vec<char>) -> (read: Result<HistoryEntry, HistoryError>)
    ensures
        outcome(read) == history_record(line@),
{
    let ws = split_words(line);
    if ws.len() < 2 {
        return Err(HistoryError::MissingTimestamp);
    }
    match parse_timestamp(&ws[1]) {
        Some(timestamp) => {
            let command = from_chars(&join_words(&ws, 2));
            Ok(HistoryEntry { timestamp, command })
        },
        None => Err(HistoryError::InvalidTimestamp),
    }
}

/// Reads the entry of one line of a history listing:
/// `number timestamp command...`.
pub fn parse_history_line(line: &str) -> (read: Result<HistoryEntry, HistoryError>)
    ensures
        outcome(read) == history_record(line@),
{
    let chars = to_chars(line);
    record_of(&chars)
}

/// Reads a history listing, one entry to a line: for each line, in order, its
/// entry or the reason why it gives none.
pub fn parse_history(listing: &str) -> (read: Vec<Result<HistoryEntry, HistoryError>>)
    ensures
        read.len() == lines(listing@).len(),
        forall|i: int|
            0 <= i < read.len() ==> outcome(#[trigger] read[i]) == history_record(
                lines(listing@)[i],
            ),
{
    let chars = to_chars(listing);
    let rows = split_lines(&chars);
    let mut read: Vec<Result<HistoryEntry, HistoryError>> = Vec::new();
    let mut i: usize = 0;
    while i < rows.len()
        invariant
            i <= rows.len(),
            texts(rows@) == lines(listing@),
            read.len() == i,
            forall|j: int|
                0 <= j < i ==> outcome(#[trigger] read[j]) == history_record(lines(listing@)[j]),
        decreases rows.len() - i,
    {
        read.push(record_of(&rows[i]));
        i += 1;
    }
    read
}

} // verus!
