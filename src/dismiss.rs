//! Manual override: marking an auto-expired notification as dismissed by the user.

use vstd::prelude::*;
use crate::record::{Fact, LogRecord, blank, dismissed_label, event_key};
use crate::aggregate::{is_aggregate, fold_key, state_key, facts_of, lemma_fold_key};

verus! {

/// Close reason code of an auto-expired notification.
pub const CODE_EXPIRED: u32 = 1;

/// Close reason code of a notification dismissed by the user.
pub const CODE_DISMISSED_BY_USER: u32 = 2;

/// What a manual override is aimed at.
#[derive(Debug)]
pub enum DismissTarget {
    /// An explicit event key.
    Event(String),
    /// A notification id, resolved among the auto-expired states.
    Id(u32),
}

/// Why a manual override was refused.
#[derive(Debug, PartialEq, Eq)]
pub enum DismissError {
    /// No current state matches the target.
    NotFound,
    /// The matching state is not auto-expired; its current close reason is given.
    NotAutoDismissed(Option<String>),
}

/// Whether a merged state is what the target names.
pub open spec fn target_matches(s: Fact, t: DismissTarget) -> bool {
    match t {
        DismissTarget::Event(u) => s.event_uid == Some(u@),
        DismissTarget::Id(id) => s.id == id && s.close_reason_code == Some(1u32),
    }
}

/// Whether no state before position `n` matches the target.
pub open spec fn none_before(states: Seq<Fact>, t: DismissTarget, n: int) -> bool {
    forall|j: int| 0 <= j < n ==> !target_matches(#[trigger] states[j], t)
}

/// The close fact that records the user's dismissal of `s` at the given time.
pub open spec fn dismissal_fact(s: Fact, now: i64, hhmm: Seq<char>) -> Fact {
    Fact {
        event_uid: s.event_uid,
        close_reason_code: Some(2u32),
        close_reason: Some(dismissed_label()),
        closed_epoch: Some(now),
        closed_hhmm: Some(hhmm),
        ..blank(s.id)
    }
}

/// The outcome of an override on the current states: the fact to append, or why not.
pub open spec fn dismissal(states: Seq<Fact>, t: DismissTarget, now: i64, hhmm: Seq<char>) -> Result<
    Fact,
    DismissError,
> {
    if exists|j: int| 0 <= j < states.len() && target_matches(states[j], t) {
        let j = choose|j: int|
            0 <= j < states.len() && target_matches(states[j], t) && none_before(states, t, j);
        if states[j].close_reason_code == Some(1u32) {
            Ok(dismissal_fact(states[j], now, hhmm))
        } else {
            Err(DismissError::NotAutoDismissed(None))
        }
    } else {
        Err(DismissError::NotFound)
    }
}

/// The index of the first state that matches the target.
pub open spec fn first_match(states: Seq<Fact>, t: DismissTarget) -> int {
    choose|j: int| 0 <= j < states.len() && target_matches(states[j], t) && none_before(states, t, j)
}

proof fn lemma_first_match_exists(states: Seq<Fact>, t: DismissTarget, j: int)
    requires
        0 <= j < states.len(),
        target_matches(states[j], t),
    ensures
        exists|m: int| 0 <= m < states.len() && target_matches(states[m], t) && none_before(states, t, m),
    decreases j,
{
    if !none_before(states, t, j) {
        let m = choose|m: int| 0 <= m < j && target_matches(#[trigger] states[m], t);
        lemma_first_match_exists(states, t, m);
    }
}

/// Whether a result agrees with the outcome, the close reason in a refusal aside.
pub open spec fn agrees(r: Result<LogRecord, DismissError>, d: Result<Fact, DismissError>) -> bool {
    match (r, d) {
        (Ok(x), Ok(y)) => x@ == y,
        (Err(DismissError::NotFound), Err(DismissError::NotFound)) => true,
        (Err(DismissError::NotAutoDismissed(_)), Err(DismissError::NotAutoDismissed(_))) => true,
        _ => false,
    }
}

/// Finds the first current state that the target names and, if it is auto-expired,
/// returns the close fact that marks it dismissed by the user at `now`.
pub fn mark_user_dismissed(
    merged: &Vec<LogRecord>,
    target: &DismissTarget,
    now_epoch: i64,
    now_hhmm: String,
) -> (r: Result<LogRecord, DismissError>)
    ensures
        agrees(r, dismissal(facts_of(merged@), *target, now_epoch, now_hhmm@)),
        r matches Err(DismissError::NotAutoDismissed(reason)) ==> ({
            let j = first_match(facts_of(merged@), *target);
            crate::record::text_view(reason) == merged@[j]@.close_reason
        }),
{
    let ghost states = facts_of(merged@);
    let mut j: usize = 0;
    while j < merged.len()
        invariant
            j <= merged@.len(),
            states == facts_of(merged@),
            none_before(states, *target, j as int),
        decreases merged@.len() - j,
    {
        let cur = &merged[j];
        assert(states[j as int] == cur@);
        let hit = match target {
            DismissTarget::Event(u) => match &cur.event_uid {
                Some(e) => *e == *u,
                None => false,
            },
            DismissTarget::Id(id) => cur.id == *id && cur.close_reason_code == Some(1u32),
        };
        if hit {
            proof {
                lemma_first_match_exists(states, *target, j as int);
                let m = first_match(states, *target);
                if m < j {
                    assert(!target_matches(states[m], *target));
                }
                if m > j {
                    assert(target_matches(states[j as int], *target));
                }
                assert(m == j);
            }
            if cur.close_reason_code == Some(1u32) {
                proof {
                    reveal_strlit("dismissed-by-user");
                }
                let fact = LogRecord {
                    event_uid: crate::record::copy_text(&cur.event_uid),
                    id: cur.id,
                    epoch: None,
                    hhmm: None,
                    app_name: None,
                    summary: None,
                    body: None,
                    close_reason_code: Some(CODE_DISMISSED_BY_USER),
                    close_reason: Some(String::from_str("dismissed-by-user")),
                    closed_epoch: Some(now_epoch),
                    closed_hhmm: Some(now_hhmm),
                };
                assert(fact.close_reason->0@ =~= dismissed_label());
                assert(fact@ == dismissal_fact(states[j as int], now_epoch, now_hhmm@));
                return Ok(fact);
            } else {
                return Err(DismissError::NotAutoDismissed(crate::record::copy_text(&cur.close_reason)));
            }
        }
        j = j + 1;
    }
    Err(DismissError::NotFound)
}

/// After a successful override of an event key, the new state of that key is no
/// longer auto-expired: its code is that of a user dismissal, and a second override
/// of the same key is refused.
pub proof fn lemma_dismiss_once(
    fs: Seq<Fact>,
    states: Seq<Fact>,
    u: String,
    now: i64,
    hhmm: Seq<char>,
    d: Fact,
    states2: Seq<Fact>,
    now2: i64,
    hhmm2: Seq<char>,
)
    requires
        is_aggregate(fs, states),
        dismissal(states, DismissTarget::Event(u), now, hhmm) == Ok::<Fact, DismissError>(d),
        is_aggregate(fs.push(d), states2),
    ensures
        exists|j: int|
            0 <= j < states2.len() && (#[trigger] states2[j]).event_uid == Some(u@)
                && states2[j].close_reason_code == Some(2u32),
        dismissal(states2, DismissTarget::Event(u), now2, hhmm2) == Err::<Fact, DismissError>(
            DismissError::NotAutoDismissed(None),
        ),
{
    let t = DismissTarget::Event(u);
    let fs2 = fs.push(d);
    let n = fs.len();
    assert(exists|j: int| 0 <= j < states.len() && target_matches(states[j], t));
    let j = first_match(states, t);
    let j0 = choose|j: int| 0 <= j < states.len() && target_matches(states[j], t);
    lemma_first_match_exists(states, t, j0);
    assert(d.event_uid == Some(u@));
    assert(fs2[n as int] == d);
    assert(event_key(fs2[n as int], n as nat) == u@);
    assert forall|k: Seq<char>, m: nat| m <= n implies fold_key(fs2, k, m) == fold_key(fs, k, m) by {
        lemma_fold_prefix(fs, d, k, m);
    }
    lemma_fold_key(fs2, u@, n + 1);
    assert(fold_key(fs2, u@, n + 1) is Some);
    let l = choose|l: int|
        0 <= l < states2.len() && (#[trigger] states2[l]).event_uid == Some(
            event_key(fs2[n as int], n as nat),
        );
    assert(states2[l].event_uid is Some);
    assert(fold_key(fs2, u@, n + 1) == Some(states2[l]));
    assert(states2[l].close_reason_code == Some(2u32));
    assert(target_matches(states2[l], t));
    lemma_first_match_exists(states2, t, l);
    let j2 = first_match(states2, t);
    assert(states2[j2].event_uid == Some(u@));
    assert(states2[j2].event_uid is Some);
    assert(fold_key(fs2, state_key(states2[j2]), fs2.len()) == Some(states2[j2]));
}

proof fn lemma_fold_prefix(fs: Seq<Fact>, d: Fact, k: Seq<char>, m: nat)
    requires
        m <= fs.len(),
    ensures
        fold_key(fs.push(d), k, m) == fold_key(fs, k, m),
    decreases m,
{
    if m > 0 {
        lemma_fold_prefix(fs, d, k, (m - 1) as nat);
        assert(fs.push(d)[m - 1] == fs[m - 1]);
    }
}

} // verus!
