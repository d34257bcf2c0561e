//! The list view's model: which merged states a viewer lists, how they read, and
//! how the selection moves.

use vstd::prelude::*;
use crate::text::{
    chars_of, find_char_exec, find_char_from, lemma_find, string_of_range, trim_back,
    trim_back_exec, trim_front, trim_front_exec,
};
use crate::record::{Fact, LogRecord, text_view, copy_text};
use crate::aggregate::facts_of;

verus! {

/// Which states the viewer lists.
#[derive(Debug, Clone, Copy, PartialEq, Eq, Structural)]
pub enum FilterMode {
    /// Every state.
    All,
    /// Only auto-expired states.
    AutoDismissed,
}

impl FilterMode {
    /// The mode's name in the title bar.
    pub fn label(self) -> (r: &'static str)
        ensures
            r@ == (if self == FilterMode::All {
                "history"@
            } else {
                "missed"@
            }),
    {
        match self {
            FilterMode::All => "history",
            FilterMode::AutoDismissed => "missed",
        }
    }

    /// The other mode.
    pub fn toggle(self) -> (r: Self)
        ensures
            r != self,
    {
        match self {
            FilterMode::All => FilterMode::AutoDismissed,
            FilterMode::AutoDismissed => FilterMode::All,
        }
    }
}

/// One listed entry.
#[derive(Debug)]
pub struct Notification {
    pub id: u32,
    pub event_uid: Option<String>,
    pub summary: String,
    pub is_undismissed: bool,
    pub time_hhmm: Option<String>,
    pub app_name: Option<String>,
    pub body: Option<String>,
}

pub ghost struct NotificationView {
    pub id: u32,
    pub event_uid: Option<Seq<char>>,
    pub summary: Seq<char>,
    pub is_undismissed: bool,
    pub time_hhmm: Option<Seq<char>>,
    pub app_name: Option<Seq<char>>,
    pub body: Option<Seq<char>>,
}

impl View for Notification {
    type V = NotificationView;

    open spec fn view(&self) -> NotificationView {
        NotificationView {
            id: self.id,
            event_uid: text_view(self.event_uid),
            summary: self.summary@,
            is_undismissed: self.is_undismissed,
            time_hhmm: text_view(self.time_hhmm),
            app_name: text_view(self.app_name),
            body: text_view(self.body),
        }
    }
}

impl Notification {
    /// An entry with only an id and a summary.
    pub fn new(id: u32, summary: String) -> (r: Self)
        ensures
            r@ == (NotificationView {
                id,
                event_uid: None,
                summary: summary@,
                is_undismissed: false,
                time_hhmm: None,
                app_name: None,
                body: None,
            }),
    {
        Notification {
            id,
            event_uid: None,
            summary,
            is_undismissed: false,
            time_hhmm: None,
            app_name: None,
            body: None,
        }
    }
}

/// Whether a state was closed by expiry, by code or by label.
pub open spec fn is_auto_dismissed(f: Fact) -> bool {
    f.close_reason_code == Some(1u32) || f.close_reason == Some("expired"@)
}

/// How a state is listed.
pub open spec fn notification_of(f: Fact) -> NotificationView {
    NotificationView {
        id: f.id,
        event_uid: f.event_uid,
        summary: match f.summary {
            Some(s) => s,
            None => "(no summary)"@,
        },
        is_undismissed: is_auto_dismissed(f),
        time_hhmm: if f.hhmm is Some {
            f.hhmm
        } else {
            f.closed_hhmm
        },
        app_name: f.app_name,
        body: f.body,
    }
}

/// The entries listed for the first `n` states under a filter, in order.
pub open spec fn listed(fs: Seq<Fact>, filter: FilterMode, n: int) -> Seq<NotificationView>
    decreases n,
{
    if n <= 0 {
        Seq::empty()
    } else {
        let prev = listed(fs, filter, n - 1);
        if filter == FilterMode::AutoDismissed && !is_auto_dismissed(fs[n - 1]) {
            prev
        } else {
            prev.push(notification_of(fs[n - 1]))
        }
    }
}

pub open spec fn views_of(v: Seq<Notification>) -> Seq<NotificationView> {
    v.map_values(|n: Notification| n@)
}

/// The entries the viewer lists for the merged states under a filter.
pub fn notifications_from_log_records(records: &Vec<LogRecord>, filter: FilterMode) -> (r: Vec<
    Notification,
>)
    ensures
        views_of(r@) == listed(facts_of(records@), filter, records@.len() as int),
{
    proof {
        reveal_strlit("expired");
        reveal_strlit("(no summary)");
    }
    let ghost fs = facts_of(records@);
    let expired = String::from_str("expired");
    let mut out: Vec<Notification> = Vec::new();
    let mut i: usize = 0;
    while i < records.len()
        invariant
            i <= records@.len(),
            fs == facts_of(records@),
            expired@ == "expired"@,
            views_of(out@) == listed(fs, filter, i as int),
        decreases records@.len() - i,
    {
        let rec = &records[i];
        assert(fs[i as int] == rec@);
        let auto = rec.close_reason_code == Some(1u32) || match &rec.close_reason {
            Some(c) => *c == expired,
            None => false,
        };
        if filter == FilterMode::All || auto {
            let summary = match &rec.summary {
                Some(s) => s.clone(),
                None => String::from_str("(no summary)"),
            };
            let mut n = Notification::new(rec.id, summary);
            n.event_uid = copy_text(&rec.event_uid);
            n.is_undismissed = auto;
            n.time_hhmm = if rec.hhmm.is_some() {
                copy_text(&rec.hhmm)
            } else {
                copy_text(&rec.closed_hhmm)
            };
            n.app_name = copy_text(&rec.app_name);
            n.body = copy_text(&rec.body);
            out.push(n);
        }
        i = i + 1;
        assert(views_of(out@) =~= listed(fs, filter, i as int));
    }
    out
}

/// The selection after moving down: wraps to the top; unchanged in an empty list.
pub fn select_next(selected: usize, len: usize) -> (r: usize)
    ensures
        r == if len == 0 {
            selected as int
        } else {
            (selected + 1) % (len as int)
        },
{
    if len == 0 {
        return selected;
    }
    ((selected as u128 + 1) % (len as u128)) as usize
}

/// The selection after moving up: wraps to the bottom; unchanged in an empty list.
pub fn select_previous(selected: usize, len: usize) -> (r: usize)
    ensures
        r == if len == 0 {
            selected
        } else if selected == 0 {
            (len - 1) as usize
        } else {
            (selected - 1) as usize
        },
{
    if len == 0 {
        selected
    } else if selected == 0 {
        len - 1
    } else {
        selected - 1
    }
}

/// The selection on the last entry; unchanged in an empty list.
pub fn select_last(selected: usize, len: usize) -> (r: usize)
    ensures
        r == if len == 0 {
            selected
        } else {
            (len - 1) as usize
        },
{
    if len == 0 {
        selected
    } else {
        len - 1
    }
}

/// The selection kept within a list that was reloaded.
pub fn clamp_selection(selected: usize, len: usize) -> (r: usize)
    ensures
        r == if len == 0 {
            0
        } else if selected < len {
            selected
        } else {
            (len - 1) as usize
        },
{
    if len == 0 {
        0
    } else if selected < len {
        selected
    } else {
        len - 1
    }
}

/// The first `max_chars` characters of `s`, marked with `...` when cut.
pub open spec fn truncated(s: Seq<char>, max_chars: nat) -> Seq<char> {
    if s.len() <= max_chars {
        s
    } else {
        s.take(max_chars as int) + "..."@
    }
}

/// Shortens text to at most `max_chars` characters plus a `...` mark.
pub fn truncate(input: &str, max_chars: usize) -> (r: String)
    ensures
        r@ == truncated(input@, max_chars as nat),
{
    let cs = chars_of(input);
    if cs.len() <= max_chars {
        assert(cs@.subrange(0, cs@.len() as int) =~= cs@);
        return string_of_range(&cs, 0, cs.len());
    }
    let mut out = string_of_range(&cs, 0, max_chars);
    out.append("...");
    assert(out@ =~= truncated(input@, max_chars as nat));
    out
}

/// The non-blank lines of a body from position `i` on, each trimmed.
pub open spec fn body_lines_from(s: Seq<char>, i: int) -> Seq<Seq<char>>
    decreases s.len() + 1 - i,
{
    if i < 0 || i >= s.len() {
        Seq::empty()
    } else {
        let nl = match find_char_from(s, '\n', i) {
            Some(n) => n,
            None => s.len() as int,
        };
        if nl < i || nl > s.len() {
            Seq::empty()
        } else {
            let a = trim_front(s, i, nl);
            let b = trim_back(s, a, nl);
            let rest = body_lines_from(s, nl + 1);
            if a == b {
                rest
            } else {
                seq![s.subrange(a, b)] + rest
            }
        }
    }
}

/// The trimmed, non-blank lines of a body.
pub fn body_lines(body: &str) -> (r: Vec<String>)
    ensures
        crate::lexer::lines_view(r@) == body_lines_from(body@, 0),
{
    let s = chars_of(body);
    let mut out: Vec<String> = Vec::new();
    let mut i: usize = 0;
    while i < s.len()
        invariant
            s@ == body@,
            i <= s@.len(),
            crate::lexer::lines_view(out@) + body_lines_from(s@, i as int) == body_lines_from(s@, 0),
        decreases s@.len() - i,
    {
        let nl = match find_char_exec(&s, '\n', i) {
            Some(n) => n,
            None => s.len(),
        };
        proof {
            lemma_find(s@, seq![], '\n', i as int);
        }
        let a = trim_front_exec(&s, i, nl);
        let b = trim_back_exec(&s, a, nl);
        let ghost before = crate::lexer::lines_view(out@);
        if a < b {
            let line = string_of_range(&s, a, b);
            out.push(line);
            assert(crate::lexer::lines_view(out@) =~= before.push(s@.subrange(a as int, b as int)));
            assert(crate::lexer::lines_view(out@) + body_lines_from(s@, nl + 1) =~= before + (seq![
                s@.subrange(a as int, b as int),
            ] + body_lines_from(s@, nl + 1)));
        }
        if nl >= s.len() {
            assert(body_lines_from(s@, nl + 1) =~= Seq::<Seq<char>>::empty());
            assert(crate::lexer::lines_view(out@) =~= crate::lexer::lines_view(out@) + body_lines_from(s@, nl + 1));
            i = s.len();
        } else {
            i = nl + 1;
        }
    }
    assert(body_lines_from(s@, i as int) =~= Seq::<Seq<char>>::empty());
    assert(crate::lexer::lines_view(out@) =~= crate::lexer::lines_view(out@) + body_lines_from(s@, i as int));
    out
}

/// The rows an entry takes: its summary line and one per body line.
pub fn notification_item_height(notification: &Notification) -> (r: u16)
    ensures
        r == 1 + (match notification@.body {
            Some(b) => if body_lines_from(b, 0).len() < u16::MAX {
                body_lines_from(b, 0).len()
            } else {
                (u16::MAX - 1) as nat
            },
            None => 0,
        }),
{
    let count: usize = match &notification.body {
        Some(b) => body_lines(b.as_str()).len(),
        None => 0,
    };
    if count < 0xffff {
        1 + count as u16
    } else {
        0xffff
    }
}

/// The entry at row `y` of a list whose entries take `heights[k]` rows each,
/// with one spacer row between entries, from entry `k` on.
pub open spec fn entry_at(heights: Seq<u16>, y: int, k: int) -> Option<int>
    decreases heights.len() - k,
{
    if k < 0 || k >= heights.len() {
        None
    } else if y < heights[k] {
        Some(k)
    } else {
        let rest = y - heights[k];
        if k + 1 < heights.len() {
            if rest == 0 {
                None
            } else {
                entry_at(heights, rest - 1, k + 1)
            }
        } else {
            None
        }
    }
}

/// The entry at row `y` of the list (rows counted from the list's top), if any;
/// a spacer row or a row below the last entry selects nothing.
pub fn entry_at_row(heights: &Vec<u16>, y: u16) -> (r: Option<usize>)
    ensures
        match r {
            Some(k) => entry_at(heights@, y as int, 0) == Some(k as int),
            None => entry_at(heights@, y as int, 0) is None,
        },
{
    let mut rest: u16 = y;
    let mut k: usize = 0;
    while k < heights.len()
        invariant
            k <= heights@.len(),
            entry_at(heights@, rest as int, k as int) == entry_at(heights@, y as int, 0),
        decreases heights@.len() - k,
    {
        if rest < heights[k] {
            return Some(k);
        }
        rest = rest - heights[k];
        if k + 1 < heights.len() {
            if rest == 0 {
                return None;
            }
            rest = rest - 1;
        } else {
            return None;
        }
        k = k + 1;
    }
    None
}

} // verus!
