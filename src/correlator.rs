//! Event correlator: matches notify calls, their replies and close signals into
//! lifecycle facts.

use vstd::prelude::*;
use std::collections::HashMap;
use crate::text::{chars_of, parse_unsigned, parse_unsigned_range};
use crate::record::{Fact, LogRecord, blank, event_uid_of, reason_label, make_event_uid, close_reason_label};
use crate::lexer::{
    type_key, lines_view, token_spec, quoted_spec, strings_in, uint32s_in, block_has, token_value,
    quoted_value_after, extract_strings, uint32_values, first_uint32, block_contains,
};

verus! {

broadcast use vstd::std_specs::hash::group_hash_axioms;

/// A notify call waiting for its reply.
#[derive(Debug)]
pub struct PendingNotify {
    pub timestamp: String,
    pub app_name: String,
    pub summary: String,
    pub body: String,
}

pub ghost struct PendingView {
    pub timestamp: Seq<char>,
    pub app_name: Seq<char>,
    pub summary: Seq<char>,
    pub body: Seq<char>,
}

impl View for PendingNotify {
    type V = PendingView;

    open spec fn view(&self) -> PendingView {
        PendingView {
            timestamp: self.timestamp@,
            app_name: self.app_name@,
            summary: self.summary@,
            body: self.body@,
        }
    }
}

/// A fact produced by one block, before its bus timestamp is resolved to a time.
#[derive(Debug)]
pub struct Emission {
    /// The fact without its time fields.
    pub record: LogRecord,
    /// The bus timestamp the time fields are to be resolved from.
    pub bus_timestamp: String,
    /// Whether this is a close fact (else an open fact).
    pub closing: bool,
}

/// What a block means to the correlator.
pub ghost enum BlockKind {
    NotifyCall { cookie: u64, pending: PendingView },
    Reply { cookie: u64, id: Option<u32> },
    Closed { timestamp: Seq<char>, closed_id: u32, code: u32 },
    Other,
}

pub open spec fn method_call_tag() -> Seq<char> {
    seq!['m', 'e', 't', 'h', 'o', 'd', '_', 'c', 'a', 'l', 'l']
}

pub open spec fn method_return_tag() -> Seq<char> {
    seq!['m', 'e', 't', 'h', 'o', 'd', '_', 'r', 'e', 't', 'u', 'r', 'n']
}

pub open spec fn signal_tag() -> Seq<char> {
    seq!['s', 'i', 'g', 'n', 'a', 'l']
}

pub open spec fn cookie_key() -> Seq<char> {
    seq!['C', 'o', 'o', 'k', 'i', 'e', '=']
}

pub open spec fn reply_cookie_key() -> Seq<char> {
    seq!['R', 'e', 'p', 'l', 'y', 'C', 'o', 'o', 'k', 'i', 'e', '=']
}

pub open spec fn timestamp_key() -> Seq<char> {
    seq!['T', 'i', 'm', 'e', 's', 't', 'a', 'm', 'p', '=']
}

pub open spec fn notify_member() -> Seq<char> {
    seq!['M', 'e', 'm', 'b', 'e', 'r', '=', 'N', 'o', 't', 'i', 'f', 'y']
}

pub open spec fn closed_member() -> Seq<char> {
    seq![
        'M', 'e', 'm', 'b', 'e', 'r', '=', 'N', 'o', 't', 'i', 'f', 'i', 'c', 'a', 't', 'i', 'o',
        'n', 'C', 'l', 'o', 's', 'e', 'd',
    ]
}

/// A header token read as an unsigned 64-bit number.
pub open spec fn u64_token(header: Seq<char>, key: Seq<char>) -> Option<u64> {
    match token_spec(header, key) {
        Some(t) => match parse_unsigned(t, u64::MAX as nat) {
            Some(v) => Some(v as u64),
            None => None,
        },
        None => None,
    }
}

/// The meaning of a non-empty block.
pub open spec fn kind_of(block: Seq<Seq<char>>) -> BlockKind {
    let header = block[0];
    let ty = token_spec(header, type_key());
    if ty == Some(method_call_tag()) && block_has(block, notify_member()) {
        let strings = strings_in(block);
        match (u64_token(header, cookie_key()), quoted_spec(header, timestamp_key())) {
            (Some(c), Some(ts)) => if strings.len() >= 4 {
                BlockKind::NotifyCall {
                    cookie: c,
                    pending: PendingView {
                        timestamp: ts,
                        app_name: strings[0],
                        summary: strings[2],
                        body: strings[3],
                    },
                }
            } else {
                BlockKind::Other
            },
            _ => BlockKind::Other,
        }
    } else if ty == Some(method_return_tag()) {
        match u64_token(header, reply_cookie_key()) {
            Some(c) => BlockKind::Reply {
                cookie: c,
                id: if uint32s_in(block).len() > 0 {
                    Some(uint32s_in(block)[0])
                } else {
                    None
                },
            },
            None => BlockKind::Other,
        }
    } else if ty == Some(signal_tag()) && block_has(block, closed_member()) {
        match quoted_spec(header, timestamp_key()) {
            Some(ts) => if uint32s_in(block).len() >= 2 {
                BlockKind::Closed { timestamp: ts, closed_id: uint32s_in(block)[0], code: uint32s_in(block)[1] }
            } else {
                BlockKind::Other
            },
            None => BlockKind::Other,
        }
    } else {
        BlockKind::Other
    }
}

/// The open fact for notification `id` resolved from pending call `p`.
pub open spec fn open_fact(id: u32, p: PendingView) -> Fact {
    Fact {
        event_uid: Some(event_uid_of(id, p.timestamp)),
        app_name: Some(p.app_name),
        summary: Some(p.summary),
        body: Some(p.body),
        ..blank(id)
    }
}

/// The close fact for notification `id` with reason `code`.
pub open spec fn close_fact(id: u32, uid: Option<Seq<char>>, code: u32) -> Fact {
    Fact {
        event_uid: uid,
        close_reason_code: Some(code),
        close_reason: Some(reason_label(code)),
        ..blank(id)
    }
}

/// The correlator's state: pending calls by cookie and open events by notification id.
pub struct Correlator {
    pub pending: HashMap<u64, PendingNotify>,
    pub active: HashMap<u32, String>,
}

impl Correlator {
    pub open spec fn pending_view(&self) -> Map<u64, PendingView> {
        self.pending@.map_values(|p: PendingNotify| p@)
    }

    pub open spec fn active_view(&self) -> Map<u32, Seq<char>> {
        self.active@.map_values(|s: String| s@)
    }

    pub fn new() -> (r: Self)
        ensures
            r.pending_view() == Map::<u64, PendingView>::empty(),
            r.active_view() == Map::<u32, Seq<char>>::empty(),
    {
        let r = Correlator { pending: HashMap::new(), active: HashMap::new() };
        assert(r.pending_view() =~= Map::<u64, PendingView>::empty());
        assert(r.active_view() =~= Map::<u32, Seq<char>>::empty());
        r
    }

    /// One step of the state machine on one block: records a notify call, resolves
    /// a reply into an open fact, or consumes an open event into a close fact.
    pub fn process_block(&mut self, block: &Vec<String>) -> (r: Option<Emission>)
        ensures
            block@.len() == 0 ==> r is None && final(self).pending_view() == old(self).pending_view()
                && final(self).active_view() == old(self).active_view(),
            block@.len() > 0 ==> match kind_of(lines_view(block@)) {
                BlockKind::Other => r is None && final(self).pending_view() == old(self).pending_view()
                    && final(self).active_view() == old(self).active_view(),
                BlockKind::NotifyCall { cookie, pending } => r is None && final(self).pending_view()
                    == old(self).pending_view().insert(cookie, pending) && final(self).active_view()
                    == old(self).active_view(),
                BlockKind::Reply { cookie, id } => if !old(self).pending_view().contains_key(cookie) {
                    r is None && final(self).pending_view() == old(self).pending_view()
                        && final(self).active_view() == old(self).active_view()
                } else {
                    let p = old(self).pending_view()[cookie];
                    &&& final(self).pending_view() == old(self).pending_view().remove(cookie)
                    &&& match id {
                        None => r is None && final(self).active_view() == old(self).active_view(),
                        Some(n) => final(self).active_view() == old(self).active_view().insert(
                            n,
                            event_uid_of(n, p.timestamp),
                        ) && (r matches Some(e) && e.record@ == open_fact(n, p)
                            && e.bus_timestamp@ == p.timestamp && !e.closing),
                    }
                },
                BlockKind::Closed { timestamp, closed_id: id, code } => {
                    let uid = if old(self).active_view().contains_key(id) {
                        Some(old(self).active_view()[id])
                    } else {
                        None
                    };
                    &&& final(self).pending_view() == old(self).pending_view()
                    &&& final(self).active_view() == old(self).active_view().remove(id)
                    &&& (r matches Some(e) && e.record@ == close_fact(id, uid, code)
                        && e.bus_timestamp@ == timestamp && e.closing)
                },
            },
    {
        if block.len() == 0 {
            return None;
        }
        let ghost lines = lines_view(block@);
        assert(lines[0] == block@[0]@);
        let header = block[0].as_str();
        proof {
            reveal_strlit("Type=");
            reveal_strlit("method_call");
            reveal_strlit("method_return");
            reveal_strlit("signal");
            reveal_strlit("Member=Notify");
            reveal_strlit("Member=NotificationClosed");
            reveal_strlit("Cookie=");
            reveal_strlit("ReplyCookie=");
            reveal_strlit("Timestamp=");
        }
        let ty_key = "Type=";
        assert(ty_key@ =~= type_key());
        let ty = token_value(header, ty_key);
        let is_call = match &ty {
            Some(t) => *t == String::from_str("method_call"),
            None => false,
        };
        let is_return = match &ty {
            Some(t) => *t == String::from_str("method_return"),
            None => false,
        };
        let is_signal = match &ty {
            Some(t) => *t == String::from_str("signal"),
            None => false,
        };
        assert("method_call"@ =~= method_call_tag());
        assert("method_return"@ =~= method_return_tag());
        assert("signal"@ =~= signal_tag());
        assert("Member=Notify"@ =~= notify_member());
        assert("Member=NotificationClosed"@ =~= closed_member());
        assert("Cookie="@ =~= cookie_key());
        assert("ReplyCookie="@ =~= reply_cookie_key());
        assert("Timestamp="@ =~= timestamp_key());
        if is_call && block_contains(block, "Member=Notify") {
            let cookie = u64_token_exec(header, "Cookie=");
            let timestamp = quoted_value_after(header, "Timestamp=");
            let strings = extract_strings(block);
            match (cookie, timestamp) {
                (Some(c), Some(ts)) => {
                    if strings.len() >= 4 {
                        assert(strings@[0]@ == strings_in(lines)[0]);
                        assert(strings@[2]@ == strings_in(lines)[2]);
                        assert(strings@[3]@ == strings_in(lines)[3]);
                        let notify = PendingNotify {
                            timestamp: ts,
                            app_name: strings[0].clone(),
                            summary: strings[2].clone(),
                            body: strings[3].clone(),
                        };
                        let ghost pv = notify@;
                        self.pending.insert(c, notify);
                        assert(self.pending_view() =~= old(self).pending_view().insert(c, pv));
                    }
                },
                _ => {},
            }
            return None;
        }
        if is_return {
            let reply = match u64_token_exec(header, "ReplyCookie=") {
                Some(c) => c,
                None => {
                    return None;
                },
            };
            let notify = match self.pending.remove(&reply) {
                Some(n) => n,
                None => {
                    return None;
                },
            };
            assert(self.pending_view() =~= old(self).pending_view().remove(reply));
            let id = match first_uint32(block) {
                Some(id) => id,
                None => {
                    return None;
                },
            };
            let event_uid = make_event_uid(id, notify.timestamp.as_str());
            let ghost uv = event_uid@;
            self.active.insert(id, event_uid.clone());
            assert(self.active_view() =~= old(self).active_view().insert(id, uv));
            let record = LogRecord {
                event_uid: Some(event_uid),
                id,
                epoch: None,
                hhmm: None,
                app_name: Some(notify.app_name),
                summary: Some(notify.summary),
                body: Some(notify.body),
                close_reason_code: None,
                close_reason: None,
                closed_epoch: None,
                closed_hhmm: None,
            };
            return Some(Emission { record, bus_timestamp: notify.timestamp, closing: false });
        }
        if is_signal && block_contains(block, "Member=NotificationClosed") {
            let timestamp = match quoted_value_after(header, "Timestamp=") {
                Some(t) => t,
                None => {
                    return None;
                },
            };
            let values = uint32_values(block);
            if values.len() < 2 {
                return None;
            }
            let id = values[0];
            let code = values[1];
            let reason = close_reason_label(code);
            let event_uid = self.active.remove(&id);
            assert(self.active_view() =~= old(self).active_view().remove(id));
            let record = LogRecord {
                event_uid,
                id,
                epoch: None,
                hhmm: None,
                app_name: None,
                summary: None,
                body: None,
                close_reason_code: Some(code),
                close_reason: Some(String::from_str(reason)),
                closed_epoch: None,
                closed_hhmm: None,
            };
            return Some(Emission { record, bus_timestamp: timestamp, closing: true });
        }
        None
    }
}

fn u64_token_exec(header: &str, key: &str) -> (r: Option<u64>)
    ensures
        r == u64_token(header@, key@),
{
    match token_value(header, key) {
        Some(t) => {
            let cs = chars_of(t.as_str());
            assert(cs@.subrange(0, cs@.len() as int) =~= cs@);
            parse_unsigned_range(&cs, 0, cs.len(), u64::MAX)
        },
        None => None,
    }
}

impl Emission {
    /// The fact to persist, with the time resolved from the bus timestamp in the
    /// open or the close fields.
    pub fn resolved(self, epoch: Option<i64>, hhmm: Option<String>) -> (r: LogRecord)
        ensures
            !self.closing ==> r@ == (Fact {
                epoch,
                hhmm: crate::record::text_view(hhmm),
                ..self.record@
            }),
            self.closing ==> r@ == (Fact {
                closed_epoch: epoch,
                closed_hhmm: crate::record::text_view(hhmm),
                ..self.record@
            }),
    {
        let mut record = self.record;
        if self.closing {
            record.closed_epoch = epoch;
            record.closed_hhmm = hhmm;
        } else {
            record.epoch = epoch;
            record.hhmm = hhmm;
        }
        record
    }
}

} // verus!
