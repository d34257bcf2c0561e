//! One persisted lifecycle fact, its abstract content and the field merge.

use vstd::prelude::*;
use crate::text::{decimal, push_char, push_decimal, ascii_alnum, is_ascii_alnum};

verus! {

/// Abstract content of a fact: every optional field as plain values.
pub ghost struct Fact {
    pub event_uid: Option<Seq<char>>,
    pub id: u32,
    pub epoch: Option<i64>,
    pub hhmm: Option<Seq<char>>,
    pub app_name: Option<Seq<char>>,
    pub summary: Option<Seq<char>>,
    pub body: Option<Seq<char>>,
    pub close_reason_code: Option<u32>,
    pub close_reason: Option<Seq<char>>,
    pub closed_epoch: Option<i64>,
    pub closed_hhmm: Option<Seq<char>>,
}

pub open spec fn text_view(o: Option<String>) -> Option<Seq<char>> {
    match o {
        Some(s) => Some(s@),
        None => None,
    }
}

/// One line of the log: a partial view of one notification's lifecycle.
/// Absent fields are `None`.
#[derive(Debug)]
pub struct LogRecord {
    pub event_uid: Option<String>,
    pub id: u32,
    pub epoch: Option<i64>,
    pub hhmm: Option<String>,
    pub app_name: Option<String>,
    pub summary: Option<String>,
    pub body: Option<String>,
    pub close_reason_code: Option<u32>,
    pub close_reason: Option<String>,
    pub closed_epoch: Option<i64>,
    pub closed_hhmm: Option<String>,
}

impl View for LogRecord {
    type V = Fact;

    open spec fn view(&self) -> Fact {
        Fact {
            event_uid: text_view(self.event_uid),
            id: self.id,
            epoch: self.epoch,
            hhmm: text_view(self.hhmm),
            app_name: text_view(self.app_name),
            summary: text_view(self.summary),
            body: text_view(self.body),
            close_reason_code: self.close_reason_code,
            close_reason: text_view(self.close_reason),
            closed_epoch: self.closed_epoch,
            closed_hhmm: text_view(self.closed_hhmm),
        }
    }
}

/// A fact with the given id and no other field.
pub open spec fn blank(id: u32) -> Fact {
    Fact {
        event_uid: None,
        id,
        epoch: None,
        hhmm: None,
        app_name: None,
        summary: None,
        body: None,
        close_reason_code: None,
        close_reason: None,
        closed_epoch: None,
        closed_hhmm: None,
    }
}

/// Last write wins: a present value replaces the running one.
pub open spec fn later<T>(cur: Option<T>, next: Option<T>) -> Option<T> {
    if next is Some {
        next
    } else {
        cur
    }
}

/// Folds fact `f` into the running state `acc`, field by field; the id stays.
pub open spec fn merge_facts(acc: Fact, f: Fact) -> Fact {
    Fact {
        event_uid: later(acc.event_uid, f.event_uid),
        id: acc.id,
        epoch: later(acc.epoch, f.epoch),
        hhmm: later(acc.hhmm, f.hhmm),
        app_name: later(acc.app_name, f.app_name),
        summary: later(acc.summary, f.summary),
        body: later(acc.body, f.body),
        close_reason_code: later(acc.close_reason_code, f.close_reason_code),
        close_reason: later(acc.close_reason, f.close_reason),
        closed_epoch: later(acc.closed_epoch, f.closed_epoch),
        closed_hhmm: later(acc.closed_hhmm, f.closed_hhmm),
    }
}

/// The best-available epoch of a fact: its close epoch, else its open epoch.
pub open spec fn fact_epoch(f: Fact) -> Option<i64> {
    if f.closed_epoch is Some {
        f.closed_epoch
    } else {
        f.epoch
    }
}

/// The epoch a fact contributes to its key's ordering value (0 when absent).
pub open spec fn order_epoch(f: Fact) -> i64 {
    match fact_epoch(f) {
        Some(e) => e,
        None => 0,
    }
}

/// The key of a fact without event uid at a given file position.
pub open spec fn legacy_key(id: u32, index: nat) -> Seq<char> {
    seq!['l', 'e', 'g', 'a', 'c', 'y', ':'] + decimal(id as nat) + seq![':'] + decimal(index)
}

/// The event key of the fact at position `index` of the log.
pub open spec fn event_key(f: Fact, index: nat) -> Seq<char> {
    match f.event_uid {
        Some(u) => u,
        None => legacy_key(f.id, index),
    }
}

/// Label of a close reason code.
pub open spec fn reason_label(code: u32) -> Seq<char> {
    if code == 1 {
        seq!['e', 'x', 'p', 'i', 'r', 'e', 'd']
    } else if code == 2 {
        dismissed_label()
    } else if code == 3 {
        seq!['c', 'l', 'o', 's', 'e', 'd', '-', 'b', 'y', '-', 'c', 'a', 'l', 'l']
    } else if code == 4 {
        seq!['u', 'n', 'd', 'e', 'f', 'i', 'n', 'e', 'd']
    } else {
        seq!['u', 'n', 'k', 'n', 'o', 'w', 'n']
    }
}

pub open spec fn dismissed_label() -> Seq<char> {
    seq!['d', 'i', 's', 'm', 'i', 's', 's', 'e', 'd', '-', 'b', 'y', '-', 'u', 's', 'e', 'r']
}

/// A timestamp with every character but ASCII letters and digits replaced by `_`.
pub open spec fn sanitized(ts: Seq<char>) -> Seq<char> {
    ts.map_values(|c: char| if is_ascii_alnum(c) { c } else { '_' })
}

/// The event uid assigned to notification `id` opened at bus time `ts`.
pub open spec fn event_uid_of(id: u32, ts: Seq<char>) -> Seq<char> {
    decimal(id as nat) + seq!['_'] + sanitized(ts)
}

pub fn copy_text(o: &Option<String>) -> (r: Option<String>)
    ensures
        text_view(r) == text_view(*o),
{
    match o {
        Some(s) => Some(s.clone()),
        None => None,
    }
}

/// The label of a close reason code.
pub fn close_reason_label(reason_code: u32) -> (r: &'static str)
    ensures
        r@ == reason_label(reason_code),
{
    proof {
        reveal_strlit("expired");
        reveal_strlit("dismissed-by-user");
        reveal_strlit("closed-by-call");
        reveal_strlit("undefined");
        reveal_strlit("unknown");
    }
    match reason_code {
        1 => "expired",
        2 => "dismissed-by-user",
        3 => "closed-by-call",
        4 => "undefined",
        _ => "unknown",
    }
}

/// The event uid `"{id}_{ts}"` with `ts` sanitized, safe to pass on a command line.
pub fn make_event_uid(id: u32, bus_timestamp: &str) -> (r: String)
    ensures
        r@ == event_uid_of(id, bus_timestamp@),
{
    let mut out = String::new();
    push_decimal(&mut out, id as u64);
    push_char(&mut out, '_');
    let n = bus_timestamp.unicode_len();
    let ghost head = out@;
    let mut i: usize = 0;
    while i < n
        invariant
            n == bus_timestamp@.len(),
            i <= n,
            head == decimal(id as nat) + seq!['_'],
            out@ == head + sanitized(bus_timestamp@.subrange(0, i as int)),
        decreases n - i,
    {
        let c = bus_timestamp.get_char(i);
        let d = if ascii_alnum(c) {
            c
        } else {
            '_'
        };
        push_char(&mut out, d);
        i = i + 1;
        assert(sanitized(bus_timestamp@.subrange(0, i as int)) =~= sanitized(
            bus_timestamp@.subrange(0, i - 1),
        ).push(d));
        assert(out@ =~= head + sanitized(bus_timestamp@.subrange(0, i as int)));
    }
    assert(bus_timestamp@.subrange(0, n as int) =~= bus_timestamp@);
    out
}

/// The synthetic key `"legacy:{id}:{index}"` of a fact without event uid.
pub fn legacy_event_key(id: u32, index: usize) -> (r: String)
    ensures
        r@ == legacy_key(id, index as nat),
{
    let mut out = String::new();
    push_char(&mut out, 'l');
    push_char(&mut out, 'e');
    push_char(&mut out, 'g');
    push_char(&mut out, 'a');
    push_char(&mut out, 'c');
    push_char(&mut out, 'y');
    push_char(&mut out, ':');
    push_decimal(&mut out, id as u64);
    push_char(&mut out, ':');
    push_decimal(&mut out, index as u64);
    assert(out@ =~= legacy_key(id, index as nat));
    out
}

impl LogRecord {
    /// A record with the given id and every other field absent.
    pub fn empty(id: u32) -> (r: Self)
        ensures
            r@ == blank(id),
    {
        LogRecord {
            event_uid: None,
            id,
            epoch: None,
            hhmm: None,
            app_name: None,
            summary: None,
            body: None,
            close_reason_code: None,
            close_reason: None,
            closed_epoch: None,
            closed_hhmm: None,
        }
    }

    /// A copy with the same content.
    pub fn duplicate(&self) -> (r: Self)
        ensures
            r@ == self@,
    {
        LogRecord {
            event_uid: copy_text(&self.event_uid),
            id: self.id,
            epoch: self.epoch,
            hhmm: copy_text(&self.hhmm),
            app_name: copy_text(&self.app_name),
            summary: copy_text(&self.summary),
            body: copy_text(&self.body),
            close_reason_code: self.close_reason_code,
            close_reason: copy_text(&self.close_reason),
            closed_epoch: self.closed_epoch,
            closed_hhmm: copy_text(&self.closed_hhmm),
        }
    }

    /// Every present field of `other` overwrites the one here; absent ones leave it.
    pub fn merge_from(&mut self, other: &Self)
        ensures
            final(self)@ == merge_facts(old(self)@, other@),
    {
        if other.event_uid.is_some() {
            self.event_uid = copy_text(&other.event_uid);
        }
        if other.epoch.is_some() {
            self.epoch = other.epoch;
        }
        if other.hhmm.is_some() {
            self.hhmm = copy_text(&other.hhmm);
        }
        if other.app_name.is_some() {
            self.app_name = copy_text(&other.app_name);
        }
        if other.summary.is_some() {
            self.summary = copy_text(&other.summary);
        }
        if other.body.is_some() {
            self.body = copy_text(&other.body);
        }
        if other.close_reason_code.is_some() {
            self.close_reason_code = other.close_reason_code;
        }
        if other.close_reason.is_some() {
            self.close_reason = copy_text(&other.close_reason);
        }
        if other.closed_epoch.is_some() {
            self.closed_epoch = other.closed_epoch;
        }
        if other.closed_hhmm.is_some() {
            self.closed_hhmm = copy_text(&other.closed_hhmm);
        }
    }

    /// The close epoch if present, else the open epoch.
    pub fn event_epoch(&self) -> (r: Option<i64>)
        ensures
            r == fact_epoch(self@),
    {
        if self.closed_epoch.is_some() {
            self.closed_epoch
        } else {
            self.epoch
        }
    }

    /// The event key of this record at position `index` of the log.
    pub fn event_key(&self, index: usize) -> (r: String)
        ensures
            r@ == event_key(self@, index as nat),
    {
        match &self.event_uid {
            Some(u) => u.clone(),
            None => legacy_event_key(self.id, index),
        }
    }
}

} // verus!
