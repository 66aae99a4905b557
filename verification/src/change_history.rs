//! Versioned change-history tokens (FSEvents event IDs and USN journal
//! positions) and the continuity of a saved position with the history that is
//! currently available.
use crate::text::{
    chars_eq, chars_of, concat, i64_to_decimal, lemma_decimal_value, lemma_parse_i64_decimal,
    lemma_parse_u64_decimal, lemma_split_extend, lemma_split_single,
    owned, parse_i64, parse_i64_spec, parse_u64, parse_u64_spec, split_chars, split_on,
    string_of, u64_to_decimal, decimal, signed_decimal, all_digits, is_digit,
};
use vstd::prelude::*;

verus! {

/// A saved position in an operating system's change history.
#[derive(Clone, Copy, Debug, PartialEq, Eq, Structural)]
pub enum HistoryToken {
    Fsevents { event_id: u64 },
    Usn { journal_id: u64, next_usn: i64 },
}

/// The range of change history an operating system can currently replay.
#[derive(Clone, Copy, Debug, PartialEq, Eq, Structural)]
pub enum AvailableHistory {
    Fsevents { earliest_event_id: u64, latest_event_id: u64 },
    Usn { journal_id: u64, lowest_valid_usn: i64, next_usn: i64 },
}

/// How a saved position relates to the available history.
#[derive(Clone, Copy, Debug, PartialEq, Eq, Structural)]
pub enum HistoryContinuity {
    Continuous,
    HistoryGap,
    JournalChanged,
    SourceMismatch,
    InvalidRange,
}

/// The text of a token: `fsevents:v1:<event_id>` or `usn:v1:<journal_id>:<next_usn>`.
pub open spec fn encode_spec(t: HistoryToken) -> Seq<char> {
    match t {
        HistoryToken::Fsevents { event_id } => "fsevents:v1:"@ + decimal(event_id as nat),
        HistoryToken::Usn { journal_id, next_usn } => "usn:v1:"@ + decimal(journal_id as nat)
            + seq![':'] + signed_decimal(next_usn as int),
    }
}

/// A token that `parse` accepts: nonzero identifiers and a nonnegative USN.
pub open spec fn token_is_storable(t: HistoryToken) -> bool {
    match t {
        HistoryToken::Fsevents { event_id } => event_id != 0,
        HistoryToken::Usn { journal_id, next_usn } => journal_id != 0 && next_usn >= 0,
    }
}

/// The token a text stands for, or the message that rejects it.
pub open spec fn parse_spec(s: Seq<char>) -> Result<HistoryToken, Seq<char>> {
    let parts = split_on(s, ':');
    if parts.len() == 3 && parts[0] == "fsevents"@ && parts[1] == "v1"@ {
        match parse_u64_spec(parts[2]) {
            None => Err("FSEvents tokenのevent IDが不正です"@),
            Some(event_id) => if event_id == 0 {
                Err("FSEvents tokenのevent IDは0にできません"@)
            } else {
                Ok(HistoryToken::Fsevents { event_id })
            },
        }
    } else if parts.len() == 4 && parts[0] == "usn"@ && parts[1] == "v1"@ {
        match parse_u64_spec(parts[2]) {
            None => Err("USN tokenのjournal IDが不正です"@),
            Some(journal_id) => match parse_i64_spec(parts[3]) {
                None => Err("USN tokenのnext USNが不正です"@),
                Some(next_usn) => if journal_id == 0 || next_usn < 0 {
                    Err("USN tokenの値が保存可能な範囲外です"@)
                } else {
                    Ok(HistoryToken::Usn { journal_id, next_usn })
                },
            },
        }
    } else {
        Err("未対応または破損した変更履歴tokenです"@)
    }
}

/// The continuity of a saved position with the available history.
pub open spec fn continuity_spec(checkpoint: HistoryToken, available: AvailableHistory) -> HistoryContinuity {
    match (checkpoint, available) {
        (
            HistoryToken::Fsevents { event_id },
            AvailableHistory::Fsevents { earliest_event_id, latest_event_id },
        ) => {
            if earliest_event_id == 0 || earliest_event_id > latest_event_id || event_id
                > latest_event_id {
                HistoryContinuity::InvalidRange
            } else if event_id < earliest_event_id {
                HistoryContinuity::HistoryGap
            } else {
                HistoryContinuity::Continuous
            }
        },
        (
            HistoryToken::Usn { journal_id, next_usn: checkpoint_usn },
            AvailableHistory::Usn { journal_id: current_journal_id, lowest_valid_usn, next_usn },
        ) => {
            if lowest_valid_usn < 0 || lowest_valid_usn > next_usn || checkpoint_usn > next_usn {
                HistoryContinuity::InvalidRange
            } else if journal_id != current_journal_id {
                HistoryContinuity::JournalChanged
            } else if checkpoint_usn < lowest_valid_usn {
                HistoryContinuity::HistoryGap
            } else {
                HistoryContinuity::Continuous
            }
        },
        _ => HistoryContinuity::SourceMismatch,
    }
}

/// The saved position lies inside the available history of the same source:
/// for FSEvents, a valid range with the event between its earliest and latest
/// IDs; for USN, the same journal and a position between the lowest valid USN
/// and the next USN of a valid range.
pub open spec fn replayable(checkpoint: HistoryToken, available: AvailableHistory) -> bool {
    match (checkpoint, available) {
        (
            HistoryToken::Fsevents { event_id },
            AvailableHistory::Fsevents { earliest_event_id, latest_event_id },
        ) => earliest_event_id != 0 && earliest_event_id <= event_id && event_id
            <= latest_event_id,
        (
            HistoryToken::Usn { journal_id, next_usn: checkpoint_usn },
            AvailableHistory::Usn { journal_id: current_journal_id, lowest_valid_usn, next_usn },
        ) => journal_id == current_journal_id && 0 <= lowest_valid_usn && lowest_valid_usn
            <= checkpoint_usn && checkpoint_usn <= next_usn,
        _ => false,
    }
}

impl HistoryToken {
    /// The versioned text of the token.
    pub fn encode(self) -> (s: String)
        ensures
            s@ == encode_spec(self),
    {
        match self {
            HistoryToken::Fsevents { event_id } => {
                let number = u64_to_decimal(event_id);
                concat("fsevents:v1:", number.as_str())
            },
            HistoryToken::Usn { journal_id, next_usn } => {
                let journal = u64_to_decimal(journal_id);
                let next = i64_to_decimal(next_usn);
                let head = concat("usn:v1:", journal.as_str());
                let with_sep = concat(head.as_str(), ":");
                proof {
                    reveal_strlit(":");
                }
                concat(with_sep.as_str(), next.as_str())
            },
        }
    }

    /// Reads a versioned token; unknown versions, missing parts, malformed
    /// numbers, zero identifiers and negative USNs are rejected.
    pub fn parse(value: &str) -> (r: Result<HistoryToken, String>)
        ensures
            match r {
                Ok(t) => parse_spec(value@) == Ok::<HistoryToken, Seq<char>>(t),
                Err(e) => parse_spec(value@) == Err::<HistoryToken, Seq<char>>(e@),
            },
    {
        let chars = chars_of(value);
        let parts = split_chars(&chars, ':');
        let fsevents_tag = chars_of("fsevents");
        let usn_tag = chars_of("usn");
        let version_tag = chars_of("v1");
        if parts.len() == 3 && chars_eq(&parts[0], &fsevents_tag) && chars_eq(
            &parts[1],
            &version_tag,
        ) {
            let text = string_of(&parts[2]);
            match parse_u64(text.as_str()) {
                None => Err(owned("FSEvents tokenのevent IDが不正です")),
                Some(event_id) => {
                    if event_id == 0 {
                        Err(owned("FSEvents tokenのevent IDは0にできません"))
                    } else {
                        Ok(HistoryToken::Fsevents { event_id })
                    }
                },
            }
        } else if parts.len() == 4 && chars_eq(&parts[0], &usn_tag) && chars_eq(
            &parts[1],
            &version_tag,
        ) {
            let journal_text = string_of(&parts[2]);
            let next_text = string_of(&parts[3]);
            match parse_u64(journal_text.as_str()) {
                None => Err(owned("USN tokenのjournal IDが不正です")),
                Some(journal_id) => match parse_i64(next_text.as_str()) {
                    None => Err(owned("USN tokenのnext USNが不正です")),
                    Some(next_usn) => {
                        if journal_id == 0 || next_usn < 0 {
                            Err(owned("USN tokenの値が保存可能な範囲外です"))
                        } else {
                            Ok(HistoryToken::Usn { journal_id, next_usn })
                        }
                    },
                },
            }
        } else {
            Err(owned("未対応または破損した変更履歴tokenです"))
        }
    }
}

proof fn lemma_digits_free_of_colon(s: Seq<char>)
    requires
        all_digits(s),
    ensures
        forall|i: int| 0 <= i < s.len() ==> s[i] != ':',
{
    assert forall|i: int| 0 <= i < s.len() implies s[i] != ':' by {
        assert(is_digit(s[i]));
    }
}

proof fn lemma_split_three(p0: Seq<char>, p1: Seq<char>, p2: Seq<char>)
    requires
        forall|i: int| 0 <= i < p0.len() ==> p0[i] != ':',
        forall|i: int| 0 <= i < p1.len() ==> p1[i] != ':',
        forall|i: int| 0 <= i < p2.len() ==> p2[i] != ':',
    ensures
        split_on(p0.push(':') + p1 + seq![':'] + p2, ':') == seq![p0, p1, p2],
{
    lemma_split_single(p0, ':');
    lemma_split_extend(p0, p1, ':');
    let a = p0.push(':') + p1;
    lemma_split_extend(a, p2, ':');
    assert(a.push(':') + p2 =~= p0.push(':') + p1 + seq![':'] + p2);
    assert(seq![p0].push(p1).push(p2) =~= seq![p0, p1, p2]);
}

proof fn lemma_split_four(p0: Seq<char>, p1: Seq<char>, p2: Seq<char>, p3: Seq<char>)
    requires
        forall|i: int| 0 <= i < p0.len() ==> p0[i] != ':',
        forall|i: int| 0 <= i < p1.len() ==> p1[i] != ':',
        forall|i: int| 0 <= i < p2.len() ==> p2[i] != ':',
        forall|i: int| 0 <= i < p3.len() ==> p3[i] != ':',
    ensures
        split_on(p0.push(':') + p1 + seq![':'] + p2 + seq![':'] + p3, ':') == seq![p0, p1, p2, p3],
{
    lemma_split_three(p0, p1, p2);
    let a = p0.push(':') + p1 + seq![':'] + p2;
    lemma_split_extend(a, p3, ':');
    assert(a.push(':') + p3 =~= p0.push(':') + p1 + seq![':'] + p2 + seq![':'] + p3);
    assert(seq![p0, p1, p2].push(p3) =~= seq![p0, p1, p2, p3]);
}

/// Reading back the text of a storable token gives the same token: encoding
/// and parsing are inverse on every token that the store accepts.
pub proof fn lemma_token_round_trip(t: HistoryToken)
    requires
        token_is_storable(t),
    ensures
        parse_spec(encode_spec(t)) == Ok::<HistoryToken, Seq<char>>(t),
{
    reveal_strlit("fsevents:v1:");
    reveal_strlit("usn:v1:");
    reveal_strlit("fsevents");
    reveal_strlit("usn");
    reveal_strlit("v1");
    match t {
        HistoryToken::Fsevents { event_id } => {
            let d = decimal(event_id as nat);
            lemma_decimal_value(event_id as nat);
            lemma_digits_free_of_colon(d);
            lemma_split_three("fsevents"@, "v1"@, d);
            assert(encode_spec(t) =~= "fsevents"@.push(':') + "v1"@ + seq![':'] + d);
            lemma_parse_u64_decimal(event_id);
        },
        HistoryToken::Usn { journal_id, next_usn } => {
            let dj = decimal(journal_id as nat);
            let dn = signed_decimal(next_usn as int);
            lemma_decimal_value(journal_id as nat);
            lemma_decimal_value(next_usn as nat);
            lemma_digits_free_of_colon(dj);
            lemma_digits_free_of_colon(dn);
            lemma_split_four("usn"@, "v1"@, dj, dn);
            assert(encode_spec(t) =~= "usn"@.push(':') + "v1"@ + seq![':'] + dj + seq![':'] + dn);
            lemma_parse_u64_decimal(journal_id);
            lemma_parse_i64_decimal(next_usn);
        },
    }
}

/// Classifies a saved position against the available history.
pub fn evaluate_continuity(checkpoint: HistoryToken, available: AvailableHistory) -> (r: HistoryContinuity)
    ensures
        r == continuity_spec(checkpoint, available),
        r == HistoryContinuity::Continuous <==> replayable(checkpoint, available),
{
    match (checkpoint, available) {
        (
            HistoryToken::Fsevents { event_id },
            AvailableHistory::Fsevents { earliest_event_id, latest_event_id },
        ) => {
            if earliest_event_id == 0 || earliest_event_id > latest_event_id || event_id
                > latest_event_id {
                HistoryContinuity::InvalidRange
            } else if event_id < earliest_event_id {
                HistoryContinuity::HistoryGap
            } else {
                HistoryContinuity::Continuous
            }
        },
        (
            HistoryToken::Usn { journal_id, next_usn: checkpoint_usn },
            AvailableHistory::Usn { journal_id: current_journal_id, lowest_valid_usn, next_usn },
        ) => {
            if lowest_valid_usn < 0 || lowest_valid_usn > next_usn || checkpoint_usn > next_usn {
                HistoryContinuity::InvalidRange
            } else if journal_id != current_journal_id {
                HistoryContinuity::JournalChanged
            } else if checkpoint_usn < lowest_valid_usn {
                HistoryContinuity::HistoryGap
            } else {
                HistoryContinuity::Continuous
            }
        },
        _ => HistoryContinuity::SourceMismatch,
    }
}

/// A USN checkpoint against a consistent USN range (the lowest valid position
/// between zero and the next position, the saved position not beyond the
/// next): another journal is a journal change whatever the positions; in the
/// same journal a saved position below the lowest valid one is a gap, and
/// otherwise the history continues. A gap is only ever reported for the same
/// journal.
pub proof fn lemma_usn_journal_decides_first(
    journal_id: u64,
    checkpoint_usn: i64,
    current_journal_id: u64,
    lowest_valid_usn: i64,
    next_usn: i64,
)
    requires
        0 <= lowest_valid_usn <= next_usn,
        checkpoint_usn <= next_usn,
    ensures
        journal_id != current_journal_id ==> continuity_spec(
            HistoryToken::Usn { journal_id, next_usn: checkpoint_usn },
            AvailableHistory::Usn { journal_id: current_journal_id, lowest_valid_usn, next_usn },
        ) == HistoryContinuity::JournalChanged,
        journal_id == current_journal_id && checkpoint_usn < lowest_valid_usn ==> continuity_spec(
            HistoryToken::Usn { journal_id, next_usn: checkpoint_usn },
            AvailableHistory::Usn { journal_id: current_journal_id, lowest_valid_usn, next_usn },
        ) == HistoryContinuity::HistoryGap,
        journal_id == current_journal_id && lowest_valid_usn <= checkpoint_usn ==> continuity_spec(
            HistoryToken::Usn { journal_id, next_usn: checkpoint_usn },
            AvailableHistory::Usn { journal_id: current_journal_id, lowest_valid_usn, next_usn },
        ) == HistoryContinuity::Continuous,
{
}

/// Whatever the checkpoint and the available history, a gap in USN history is
/// only reported for a USN checkpoint against the same journal, with the saved
/// position below the lowest valid one.
pub proof fn lemma_usn_gap_same_journal(checkpoint: HistoryToken, available: AvailableHistory)
    ensures
        continuity_spec(checkpoint, available) == HistoryContinuity::HistoryGap && checkpoint is Usn
            ==> (available matches AvailableHistory::Usn { journal_id, lowest_valid_usn, .. }
            && checkpoint->Usn_journal_id == journal_id && checkpoint->Usn_next_usn
            < lowest_valid_usn),
{
}

} // verus!
