//! Reading a persisted log line into a fact. A line is a JSON object; the fields
//! are handed over as what the JSON value's accessors report for each of them.

use vstd::prelude::*;
use crate::text::{
    chars_of, parse_unsigned, parse_unsigned_range, string_of_range, trim_back, trim_back_exec,
    trim_front, trim_front_exec,
};
use crate::record::{Fact, LogRecord, text_view};

verus! {

/// One field of a JSON object: the number as unsigned and as signed 64-bit integer
/// (where it is one) and the text (where it is a string).
#[derive(Debug)]
pub struct JsonField {
    pub as_u64: Option<u64>,
    pub as_i64: Option<i64>,
    pub as_str: Option<String>,
}

/// The fields of one log line that a fact is read from; `None` where absent.
#[derive(Debug)]
pub struct RawLine {
    pub event_uid: Option<JsonField>,
    pub id: Option<JsonField>,
    pub epoch: Option<JsonField>,
    pub hhmm: Option<JsonField>,
    pub app_name: Option<JsonField>,
    pub summary: Option<JsonField>,
    pub body: Option<JsonField>,
    pub close_reason_code: Option<JsonField>,
    pub close_reason: Option<JsonField>,
    pub closed_epoch: Option<JsonField>,
    pub closed_hhmm: Option<JsonField>,
}

/// `s` without leading and trailing whitespace.
pub open spec fn trimmed(s: Seq<char>) -> Seq<char> {
    let a = trim_front(s, 0, s.len() as int);
    s.subrange(a, trim_back(s, a, s.len() as int))
}

/// A text field: its trimmed text, absent when it is not a string or is blank.
pub open spec fn text_field(f: Option<JsonField>) -> Option<Seq<char>> {
    match f {
        Some(v) => match v.as_str {
            Some(s) => if trimmed(s@).len() > 0 {
                Some(trimmed(s@))
            } else {
                None
            },
            None => None,
        },
        None => None,
    }
}

/// An unsigned 32-bit number field.
pub open spec fn code_field(f: Option<JsonField>) -> Option<u32> {
    match f {
        Some(v) => match v.as_u64 {
            Some(n) => if n <= u32::MAX {
                Some(n as u32)
            } else {
                None
            },
            None => None,
        },
        None => None,
    }
}

/// A signed 64-bit number field.
pub open spec fn epoch_field(f: Option<JsonField>) -> Option<i64> {
    match f {
        Some(v) => v.as_i64,
        None => None,
    }
}

/// The id: a number, or a string holding a number, that fits 32 bits.
pub open spec fn id_field(f: Option<JsonField>) -> Option<u32> {
    match f {
        Some(v) => match v.as_u64 {
            Some(n) => if n <= u32::MAX {
                Some(n as u32)
            } else {
                None
            },
            None => match v.as_str {
                Some(s) => match parse_unsigned(s@, u32::MAX as nat) {
                    Some(n) => Some(n as u32),
                    None => None,
                },
                None => None,
            },
        },
        None => None,
    }
}

/// The fact a line holds, if its id is valid.
pub open spec fn line_fact(raw: RawLine) -> Option<Fact> {
    match id_field(raw.id) {
        Some(id) => Some(
            Fact {
                event_uid: text_field(raw.event_uid),
                id,
                epoch: epoch_field(raw.epoch),
                hhmm: text_field(raw.hhmm),
                app_name: text_field(raw.app_name),
                summary: text_field(raw.summary),
                body: text_field(raw.body),
                close_reason_code: code_field(raw.close_reason_code),
                close_reason: text_field(raw.close_reason),
                closed_epoch: epoch_field(raw.closed_epoch),
                closed_hhmm: text_field(raw.closed_hhmm),
            },
        ),
        None => None,
    }
}

/// The trimmed text of a string field, absent when blank or not a string.
pub fn opt_non_empty(value: &Option<JsonField>) -> (r: Option<String>)
    ensures
        text_view(r) == text_field(*value),
{
    match value {
        Some(v) => match &v.as_str {
            Some(s) => {
                let cs = chars_of(s.as_str());
                let a = trim_front_exec(&cs, 0, cs.len());
                let b = trim_back_exec(&cs, a, cs.len());
                if a < b {
                    Some(string_of_range(&cs, a, b))
                } else {
                    None
                }
            },
            None => None,
        },
        None => None,
    }
}

fn u32_field(value: &Option<JsonField>) -> (r: Option<u32>)
    ensures
        r == code_field(*value),
{
    match value {
        Some(v) => match v.as_u64 {
            Some(n) => if n <= 0xffff_ffffu64 {
                Some(n as u32)
            } else {
                None
            },
            None => None,
        },
        None => None,
    }
}

fn i64_field(value: &Option<JsonField>) -> (r: Option<i64>)
    ensures
        r == epoch_field(*value),
{
    match value {
        Some(v) => v.as_i64,
        None => None,
    }
}

fn id_of(value: &Option<JsonField>) -> (r: Option<u32>)
    ensures
        r == id_field(*value),
{
    match value {
        Some(v) => match v.as_u64 {
            Some(n) => if n <= 0xffff_ffffu64 {
                Some(n as u32)
            } else {
                None
            },
            None => match &v.as_str {
                Some(s) => {
                    let cs = chars_of(s.as_str());
                    assert(cs@.subrange(0, cs@.len() as int) =~= cs@);
                    match parse_unsigned_range(&cs, 0, cs.len(), 0xffff_ffffu64) {
                        Some(n) => Some(n as u32),
                        None => None,
                    }
                },
                None => None,
            },
        },
        None => None,
    }
}

/// Reads a log line's fields into a fact; `None` when the id is missing or invalid.
pub fn value_to_record(raw: &RawLine) -> (r: Option<LogRecord>)
    ensures
        match r {
            Some(rec) => line_fact(*raw) == Some(rec@),
            None => line_fact(*raw) is None,
        },
{
    let id = match id_of(&raw.id) {
        Some(id) => id,
        None => {
            return None;
        },
    };
    Some(
        LogRecord {
            event_uid: opt_non_empty(&raw.event_uid),
            id,
            epoch: i64_field(&raw.epoch),
            hhmm: opt_non_empty(&raw.hhmm),
            app_name: opt_non_empty(&raw.app_name),
            summary: opt_non_empty(&raw.summary),
            body: opt_non_empty(&raw.body),
            close_reason_code: u32_field(&raw.close_reason_code),
            close_reason: opt_non_empty(&raw.close_reason),
            closed_epoch: i64_field(&raw.closed_epoch),
            closed_hhmm: opt_non_empty(&raw.closed_hhmm),
        },
    )
}

} // verus!
