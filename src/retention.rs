//! Bounding the log: count-bound retention by event key, and age-based pruning
//! by fact line.

use vstd::prelude::*;
use crate::record::{Fact, LogRecord, event_key, fact_epoch};
use crate::aggregate::{facts_of, is_aggregate, state_key, aggregate_records};

verus! {

/// The facts among the first `n` whose key (at their own file position) is in `keep`,
/// in file order.
pub open spec fn keyed_filter(fs: Seq<Fact>, keep: Seq<Seq<char>>, n: nat) -> Seq<Fact>
    decreases n,
{
    if n == 0 {
        Seq::empty()
    } else {
        let i = (n - 1) as nat;
        let prev = keyed_filter(fs, keep, i);
        if keep.contains(event_key(fs[i as int], i)) {
            prev.push(fs[i as int])
        } else {
            prev
        }
    }
}

/// The keys of the first `cap` states of an aggregate.
pub open spec fn top_keys(agg: Seq<Fact>, cap: nat) -> Seq<Seq<char>> {
    agg.take(cap as int).map_values(|s: Fact| state_key(s))
}

/// `out` is what count-bound retention with bound `cap` leaves of `fs`: all of it
/// when `cap` is 0 or there are at most `cap` distinct keys, otherwise every fact
/// whose key is among the `cap` highest-ranked keys.
pub open spec fn is_retention(fs: Seq<Fact>, cap: nat, out: Seq<Fact>) -> bool {
    if cap == 0 {
        out == fs
    } else {
        exists|agg: Seq<Fact>|
            #[trigger] is_aggregate(fs, agg) && if agg.len() <= cap {
                out == fs
            } else {
                out == keyed_filter(fs, top_keys(agg, cap), fs.len())
            }
    }
}

/// Whether a fact survives pruning at `cutoff`: it has no epoch, or its
/// best-available epoch is not older than the cutoff.
pub open spec fn survives_age(f: Fact, cutoff: i64) -> bool {
    match fact_epoch(f) {
        Some(e) => e >= cutoff,
        None => true,
    }
}

/// The facts among the first `n` that survive pruning at `cutoff`, in file order.
pub open spec fn age_filter(fs: Seq<Fact>, cutoff: i64, n: nat) -> Seq<Fact>
    decreases n,
{
    if n == 0 {
        Seq::empty()
    } else {
        let prev = age_filter(fs, cutoff, (n - 1) as nat);
        if survives_age(fs[n - 1], cutoff) {
            prev.push(fs[n - 1])
        } else {
            prev
        }
    }
}

/// Seconds in a day.
pub const SECONDS_PER_DAY: i64 = 86400;

/// `now - days * 86400`, held within the range of `i64`.
pub open spec fn age_cutoff_of(now: i64, days: u64) -> i64 {
    let c = now - days * 86400;
    if c < i64::MIN {
        i64::MIN
    } else {
        c as i64
    }
}

/// The contents of a sequence of strings.
pub open spec fn text_views(v: Seq<String>) -> Seq<Seq<char>> {
    v.map_values(|s: String| s@)
}

fn contains_key(keep: &Vec<String>, key: &String) -> (r: bool)
    ensures
        r == text_views(keep@).contains(key@),
{
    let ghost ks = text_views(keep@);
    let mut j: usize = 0;
    while j < keep.len()
        invariant
            j <= keep@.len(),
            ks == text_views(keep@),
            forall|p: int| 0 <= p < j ==> (#[trigger] keep@[p])@ != key@,
        decreases keep@.len() - j,
    {
        if keep[j] == *key {
            assert(ks[j as int] == key@);
            return true;
        }
        j = j + 1;
    }
    proof {
        if ks.contains(key@) {
            let p = choose|p: int| 0 <= p < ks.len() && ks[p] == key@;
            assert(keep@[p]@ == key@);
        }
    }
    false
}

/// Keeps the facts of the `max_notification_length` highest-ranked event keys and
/// drops every fact of every other key; the log is unchanged when it holds no more
/// keys than that.
pub fn trim_records_to_latest_notifications(records: Vec<LogRecord>, max_notification_length: usize)
    -> (r: Vec<LogRecord>)
    requires
        max_notification_length > 0,
    ensures
        is_retention(facts_of(records@), max_notification_length as nat, facts_of(r@)),
{
    let ghost fs = facts_of(records@);
    let agg = aggregate_records(&records);
    let ghost ag = facts_of(agg@);
    if agg.len() <= max_notification_length {
        assert(is_aggregate(fs, ag));
        return records;
    }
    let mut keep: Vec<String> = Vec::new();
    let mut j: usize = 0;
    while j < max_notification_length
        invariant
            j <= max_notification_length < agg@.len(),
            ag == facts_of(agg@),
            is_aggregate(fs, ag),
            text_views(keep@) == top_keys(ag, j as nat),
            keep@.len() == j,
        decreases max_notification_length - j,
    {
        let ghost k0 = keep@;
        let ghost t0 = top_keys(ag, j as nat);
        assert(ag[j as int] == agg@[j as int]@);
        assert(ag[j as int].event_uid is Some);
        let uid = match &agg[j].event_uid {
            Some(u) => u.clone(),
            None => String::new(),
        };
        keep.push(uid);
        assert(uid@ == state_key(ag[j as int]));
        assert(ag.take(j + 1) =~= ag.take(j as int).push(ag[j as int]));
        j = j + 1;
        assert(keep@ == k0.push(uid));
        assert forall|x: int| 0 <= x < j implies #[trigger] text_views(keep@)[x] == top_keys(ag, j as nat)[x] by {
            if x < j - 1 {
                assert(keep@[x] == k0[x]);
                assert(text_views(k0)[x] == t0[x]);
            }
        }
        assert(text_views(keep@) =~= top_keys(ag, j as nat));
    }
    let ghost kv = text_views(keep@);
    let mut out: Vec<LogRecord> = Vec::new();
    let mut i: usize = 0;
    while i < records.len()
        invariant
            i <= records@.len(),
            fs == facts_of(records@),
            kv == text_views(keep@),
            facts_of(out@) == keyed_filter(fs, kv, i as nat),
        decreases records@.len() - i,
    {
        let key = records[i].event_key(i);
        assert(fs[i as int] == records@[i as int]@);
        if contains_key(&keep, &key) {
            out.push(records[i].duplicate());
        }
        i = i + 1;
        assert(facts_of(out@) =~= keyed_filter(fs, kv, i as nat));
    }
    assert(is_aggregate(fs, ag));
    out
}

/// The count-bound policy applied after an append: `None` when the log needs no
/// rewrite (bound 0, empty log, or nothing to drop), else the facts to write back.
pub fn prune_to_max_notifications(records: Vec<LogRecord>, max_notification_length: usize)
    -> (r: Option<Vec<LogRecord>>)
    ensures
        match r {
            None => max_notification_length == 0 || is_retention(
                facts_of(records@),
                max_notification_length as nat,
                facts_of(records@),
            ),
            Some(v) => is_retention(
                facts_of(records@),
                max_notification_length as nat,
                facts_of(v@),
            ) && v@.len() < records@.len(),
        },
{
    if max_notification_length == 0 {
        return None;
    }
    if records.len() == 0 {
        assert(is_aggregate(facts_of(records@), Seq::<Fact>::empty()));
        return None;
    }
    let before = records.len();
    let ghost fs = facts_of(records@);
    let trimmed = trim_records_to_latest_notifications(records, max_notification_length);
    if trimmed.len() == before {
        proof {
            lemma_same_length_retention(fs, max_notification_length as nat, facts_of(trimmed@));
        }
        None
    } else {
        proof {
            lemma_retention_shrinks(fs, max_notification_length as nat, facts_of(trimmed@));
        }
        Some(trimmed)
    }
}

proof fn lemma_keyed_filter_len(fs: Seq<Fact>, keep: Seq<Seq<char>>, n: nat)
    requires
        n <= fs.len(),
    ensures
        keyed_filter(fs, keep, n).len() <= n,
        keyed_filter(fs, keep, n).len() == n ==> keyed_filter(fs, keep, n) == fs.take(n as int),
    decreases n,
{
    if n > 0 {
        lemma_keyed_filter_len(fs, keep, (n - 1) as nat);
        let i = (n - 1) as nat;
        if keyed_filter(fs, keep, n).len() == n {
            assert(keep.contains(event_key(fs[i as int], i)));
            assert(fs.take(n as int) =~= fs.take(i as int).push(fs[i as int]));
        }
    }
}

proof fn lemma_same_length_retention(fs: Seq<Fact>, cap: nat, out: Seq<Fact>)
    requires
        is_retention(fs, cap, out),
        out.len() == fs.len(),
    ensures
        is_retention(fs, cap, fs),
{
    if cap > 0 {
        let agg = choose|agg: Seq<Fact>|
            #[trigger] is_aggregate(fs, agg) && if agg.len() <= cap {
                out == fs
            } else {
                out == keyed_filter(fs, top_keys(agg, cap), fs.len())
            };
        if agg.len() > cap {
            lemma_keyed_filter_len(fs, top_keys(agg, cap), fs.len());
            assert(fs.take(fs.len() as int) =~= fs);
        }
    }
}

proof fn lemma_retention_shrinks(fs: Seq<Fact>, cap: nat, out: Seq<Fact>)
    requires
        is_retention(fs, cap, out),
        out.len() != fs.len(),
    ensures
        out.len() < fs.len(),
{
    if cap > 0 {
        let agg = choose|agg: Seq<Fact>|
            #[trigger] is_aggregate(fs, agg) && if agg.len() <= cap {
                out == fs
            } else {
                out == keyed_filter(fs, top_keys(agg, cap), fs.len())
            };
        if agg.len() > cap {
            lemma_keyed_filter_len(fs, top_keys(agg, cap), fs.len());
        }
    }
}

/// The facts that survive age pruning at `cutoff`, in file order.
pub fn prune_older_than(records: &Vec<LogRecord>, cutoff: i64) -> (r: Vec<LogRecord>)
    ensures
        facts_of(r@) == age_filter(facts_of(records@), cutoff, records@.len() as nat),
{
    let ghost fs = facts_of(records@);
    let mut out: Vec<LogRecord> = Vec::new();
    let mut i: usize = 0;
    while i < records.len()
        invariant
            i <= records@.len(),
            fs == facts_of(records@),
            facts_of(out@) == age_filter(fs, cutoff, i as nat),
        decreases records@.len() - i,
    {
        assert(fs[i as int] == records@[i as int]@);
        let keep = match records[i].event_epoch() {
            Some(epoch) => epoch >= cutoff,
            None => true,
        };
        if keep {
            out.push(records[i].duplicate());
        }
        i = i + 1;
        assert(facts_of(out@) =~= age_filter(fs, cutoff, i as nat));
    }
    out
}

/// The pruning cutoff `now - days * 86400`, held within `i64`.
pub fn age_cutoff(now: i64, days: u64) -> (r: i64)
    ensures
        r == age_cutoff_of(now, days),
{
    let span: i128 = (days as i128) * (SECONDS_PER_DAY as i128);
    let c: i128 = (now as i128) - span;
    if c < (i64::MIN as i128) {
        i64::MIN
    } else {
        c as i64
    }
}

} // verus!
