//! Merge-aggregation of the log: one current state per event key, most recently
//! active first.

use vstd::prelude::*;
use crate::record::{Fact, LogRecord, blank, merge_facts, event_key, order_epoch};

verus! {

/// The abstract content of a sequence of records.
pub open spec fn facts_of(rs: Seq<LogRecord>) -> Seq<Fact> {
    rs.map_values(|r: LogRecord| r@)
}

/// The state a key starts from: its id and the key as event uid.
pub open spec fn opened(id: u32, k: Seq<char>) -> Fact {
    Fact { event_uid: Some(k), ..blank(id) }
}

/// The merged state of key `k` over the first `n` facts (`None` if none has that key).
pub open spec fn fold_key(fs: Seq<Fact>, k: Seq<char>, n: nat) -> Option<Fact>
    decreases n,
{
    if n == 0 {
        None
    } else {
        let i = (n - 1) as nat;
        let prev = fold_key(fs, k, i);
        let f = fs[i as int];
        if event_key(f, i) == k {
            match prev {
                Some(m) => Some(merge_facts(m, f)),
                None => Some(merge_facts(opened(f.id, k), f)),
            }
        } else {
            prev
        }
    }
}

/// Ordering values: larger epoch first, then larger file index.
pub open spec fn ranks_above(a: (i64, nat), b: (i64, nat)) -> bool {
    a.0 > b.0 || (a.0 == b.0 && a.1 > b.1)
}

/// The ordering value of key `k` over the first `n` facts: the largest
/// `(epoch, index)` among its facts.
pub open spec fn best_order(fs: Seq<Fact>, k: Seq<char>, n: nat) -> Option<(i64, nat)>
    decreases n,
{
    if n == 0 {
        None
    } else {
        let i = (n - 1) as nat;
        let prev = best_order(fs, k, i);
        let cand = (order_epoch(fs[i as int]), i);
        if event_key(fs[i as int], i) == k {
            match prev {
                Some(b) => if ranks_above(cand, b) {
                    Some(cand)
                } else {
                    prev
                },
                None => Some(cand),
            }
        } else {
            prev
        }
    }
}

/// Whether some fact among the first `n` has key `k`.
pub open spec fn key_seen(fs: Seq<Fact>, k: Seq<char>, n: nat) -> bool {
    exists|m: int| 0 <= m < n && event_key(#[trigger] fs[m], m as nat) == k
}

/// The key a merged state stands for.
pub open spec fn state_key(s: Fact) -> Seq<char> {
    s.event_uid->0
}

/// `out` is the aggregate of `fs`: one merged state per distinct key, each the fold
/// of that key's facts, sorted by ordering value, highest first.
pub open spec fn is_aggregate(fs: Seq<Fact>, out: Seq<Fact>) -> bool {
    &&& forall|j: int|
        0 <= j < out.len() ==> (#[trigger] out[j]).event_uid is Some && fold_key(
            fs,
            state_key(out[j]),
            fs.len(),
        ) == Some(out[j])
    &&& forall|m: int|
        0 <= m < fs.len() ==> exists|j: int|
            0 <= j < out.len() && (#[trigger] out[j]).event_uid == Some(
                event_key(#[trigger] fs[m], m as nat),
            )
    &&& forall|j: int, l: int|
        0 <= j < l < out.len() ==> ranks_above(
            best_order(fs, state_key(#[trigger] out[j]), fs.len())->0,
            best_order(fs, state_key(#[trigger] out[l]), fs.len())->0,
        )
}

/// What the fold and the ordering value of a key say about the facts seen.
pub proof fn lemma_fold_key(fs: Seq<Fact>, k: Seq<char>, n: nat)
    requires
        n <= fs.len(),
    ensures
        fold_key(fs, k, n) is Some <==> key_seen(fs, k, n),
        best_order(fs, k, n) is Some <==> key_seen(fs, k, n),
        fold_key(fs, k, n) is Some ==> fold_key(fs, k, n)->0.event_uid == Some(k),
        best_order(fs, k, n) is Some ==> ({
            let b = best_order(fs, k, n)->0;
            b.1 < n && event_key(fs[b.1 as int], b.1) == k
        }),
    decreases n,
{
    if n > 0 {
        let i = (n - 1) as nat;
        lemma_fold_key(fs, k, i);
        if event_key(fs[i as int], i) == k {
            assert(key_seen(fs, k, n));
        } else {
            if key_seen(fs, k, n) {
                let m = choose|m: int| 0 <= m < n && event_key(#[trigger] fs[m], m as nat) == k;
                assert(key_seen(fs, k, i));
            }
        }
    }
}

spec fn slot_ok(fs: Seq<Fact>, k: Seq<char>, st: Fact, b: (i64, usize), n: nat) -> bool {
    fold_key(fs, k, n) == Some(st) && best_order(fs, k, n) == Some((b.0, b.1 as nat))
}

fn find_key(keys: &Vec<String>, key: &String) -> (r: Option<usize>)
    ensures
        match r {
            Some(p) => p < keys@.len() && keys@[p as int]@ == key@,
            None => forall|p: int| 0 <= p < keys@.len() ==> (#[trigger] keys@[p])@ != key@,
        },
{
    let mut j: usize = 0;
    while j < keys.len()
        invariant
            j <= keys@.len(),
            forall|p: int| 0 <= p < j ==> (#[trigger] keys@[p])@ != key@,
        decreases keys@.len() - j,
    {
        if keys[j] == *key {
            return Some(j);
        }
        j = j + 1;
    }
    None
}

fn above(a: (i64, usize), b: (i64, usize)) -> (r: bool)
    ensures
        r == ranks_above((a.0, a.1 as nat), (b.0, b.1 as nat)),
{
    a.0 > b.0 || (a.0 == b.0 && a.1 > b.1)
}

/// Groups the records by event key, merges each group field by field in file
/// order, and lists the merged states by ordering value, highest first.
pub fn aggregate_records(records: &Vec<LogRecord>) -> (r: Vec<LogRecord>)
    ensures
        is_aggregate(facts_of(records@), facts_of(r@)),
{
    let ghost fs = facts_of(records@);
    let mut keys: Vec<String> = Vec::new();
    let mut states: Vec<LogRecord> = Vec::new();
    let mut bests: Vec<(i64, usize)> = Vec::new();
    let mut i: usize = 0;
    while i < records.len()
        invariant
            fs == facts_of(records@),
            fs.len() == records@.len(),
            i <= records@.len(),
            keys@.len() == states@.len(),
            keys@.len() == bests@.len(),
            forall|p: int|
                0 <= p < keys@.len() ==> slot_ok(
                    fs,
                    (#[trigger] keys@[p])@,
                    states@[p]@,
                    bests@[p],
                    i as nat,
                ),
            forall|p: int, q: int|
                0 <= p < keys@.len() && 0 <= q < keys@.len() && p != q ==> (#[trigger] keys@[p])@
                    != (#[trigger] keys@[q])@,
            forall|m: int|
                0 <= m < i ==> exists|p: int|
                    0 <= p < keys@.len() && (#[trigger] keys@[p])@ == event_key(
                        #[trigger] fs[m],
                        m as nat,
                    ),
        decreases records@.len() - i,
    {
        let rec = &records[i];
        assert(fs[i as int] == rec@);
        let key = rec.event_key(i);
        let ep: i64 = match rec.event_epoch() {
            Some(e) => e,
            None => 0,
        };
        assert(ep == order_epoch(rec@));
        let ghost ks0 = keys@;
        let ghost st0 = states@;
        let ghost bs0 = bests@;
        let found = find_key(&keys, &key);
        match found {
            Some(p) => {
                states[p].merge_from(rec);
                let b = bests[p];
                if above((ep, i), b) {
                    bests[p] = (ep, i);
                }
            },
            None => {
                proof {
                    lemma_fold_key(fs, key@, i as nat);
                    if key_seen(fs, key@, i as nat) {
                        let m = choose|m: int|
                            0 <= m < i && event_key(#[trigger] fs[m], m as nat) == key@;
                        let p = choose|p: int|
                            0 <= p < keys@.len() && (#[trigger] keys@[p])@ == event_key(
                                fs[m],
                                m as nat,
                            );
                        assert(keys@[p]@ != key@);
                    }
                }
                let mut st = LogRecord::empty(rec.id);
                st.event_uid = Some(key.clone());
                st.merge_from(rec);
                keys.push(key);
                states.push(st);
                bests.push((ep, i));
            },
        }
        proof {
            let n1 = (i + 1) as nat;
            assert forall|p: int| 0 <= p < keys@.len() implies slot_ok(
                fs,
                (#[trigger] keys@[p])@,
                states@[p]@,
                bests@[p],
                n1,
            ) by {
                if p < ks0.len() {
                    assert(slot_ok(fs, ks0[p]@, st0[p]@, bs0[p], i as nat));
                }
            }
            assert forall|m: int| 0 <= m < i + 1 implies exists|p: int|
                0 <= p < keys@.len() && (#[trigger] keys@[p])@ == event_key(
                    #[trigger] fs[m],
                    m as nat,
                ) by {
                if m < i {
                    let p = choose|p: int|
                        0 <= p < ks0.len() && (#[trigger] ks0[p])@ == event_key(fs[m], m as nat);
                    assert(keys@[p] == ks0[p]);
                } else {
                    match found {
                        Some(p) => {
                            assert(keys@[p as int]@ == event_key(fs[m], m as nat));
                        },
                        None => {
                            assert(keys@[ks0.len() as int]@ == event_key(fs[m], m as nat));
                        },
                    }
                }
            }
        }
        i = i + 1;
    }
    let ghost n = records@.len() as nat;
    proof {
        assert forall|p: int, q: int|
            0 <= p < keys@.len() && 0 <= q < keys@.len() && p != q implies bests@[p].1
            != bests@[q].1 by {
            assert(slot_ok(fs, keys@[p]@, states@[p]@, bests@[p], n));
            assert(slot_ok(fs, keys@[q]@, states@[q]@, bests@[q], n));
            lemma_fold_key(fs, keys@[p]@, n);
            lemma_fold_key(fs, keys@[q]@, n);
        }
    }
    // Rank the slots by ordering value, highest first.
    let mut order: Vec<usize> = Vec::new();
    let mut s: usize = 0;
    while s < keys.len()
        invariant
            s <= keys@.len(),
            keys@.len() == bests@.len(),
            forall|p: int, q: int|
                0 <= p < keys@.len() && 0 <= q < keys@.len() && p != q ==> (#[trigger] bests@[p]).1
                    != (#[trigger] bests@[q]).1,
            forall|j: int| 0 <= j < order@.len() ==> #[trigger] order@[j] < s,
            forall|t: int| 0 <= t < s ==> #[trigger] listed(order@, t),
            forall|j: int, l: int|
                0 <= j < l < order@.len() ==> above_spec(bests@[#[trigger] order@[j] as int], bests@[#[trigger] order@[l] as int]),
        decreases keys@.len() - s,
    {
        let mut pos: usize = 0;
        while pos < order.len() && above(bests[order[pos]], bests[s])
            invariant
                pos <= order@.len(),
                s < bests@.len(),
                forall|j: int| 0 <= j < order@.len() ==> #[trigger] order@[j] < s,
                forall|j: int| 0 <= j < pos ==> above_spec(bests@[#[trigger] order@[j] as int], bests@[s as int]),
            decreases order@.len() - pos,
        {
            pos = pos + 1;
        }
        let ghost o0 = order@;
        proof {
            if pos < o0.len() {
                let op = o0[pos as int] as int;
                assert(bests@[op].1 != bests@[s as int].1);
                assert forall|j: int| pos <= j < o0.len() implies above_spec(bests@[s as int], bests@[#[trigger] o0[j] as int]) by {
                    if j > pos {
                        assert(above_spec(bests@[o0[pos as int] as int], bests@[o0[j] as int]));
                    }
                }
            }
        }
        order.insert(pos, s);
        proof {
            assert forall|t: int| 0 <= t < s + 1 implies #[trigger] listed(order@, t) by {
                if t < s {
                    assert(listed(o0, t));
                    let j0 = choose|j: int| 0 <= j < o0.len() && #[trigger] o0[j] == t;
                    if j0 < pos {
                        assert(order@[j0] == t);
                    } else {
                        assert(order@[j0 + 1] == t);
                    }
                } else {
                    assert(order@[pos as int] == t);
                }
            }
            assert forall|j: int, l: int|
                0 <= j < l < order@.len() implies above_spec(bests@[#[trigger] order@[j] as int], bests@[#[trigger] order@[l] as int]) by {
                if l < pos {
                    assert(order@[j] == o0[j] && order@[l] == o0[l]);
                } else if l == pos {
                    assert(order@[j] == o0[j]);
                } else if j == pos {
                    assert(order@[l] == o0[l - 1]);
                } else if j < pos {
                    assert(order@[j] == o0[j] && order@[l] == o0[l - 1]);
                } else {
                    assert(order@[j] == o0[j - 1] && order@[l] == o0[l - 1]);
                }
            }
        }
        s = s + 1;
    }
    let mut out: Vec<LogRecord> = Vec::new();
    let mut j: usize = 0;
    while j < order.len()
        invariant
            j <= order@.len(),
            keys@.len() == states@.len(),
            forall|x: int| 0 <= x < order@.len() ==> #[trigger] order@[x] < keys@.len(),
            out@.len() == j,
            forall|x: int| 0 <= x < j ==> (#[trigger] out@[x])@ == states@[order@[x] as int]@,
        decreases order@.len() - j,
    {
        out.push(states[order[j]].duplicate());
        j = j + 1;
    }
    proof {
        let fo = facts_of(out@);
        assert forall|x: int| 0 <= x < fo.len() implies (#[trigger] fo[x]).event_uid is Some
            && fold_key(fs, state_key(fo[x]), fs.len()) == Some(fo[x]) by {
            let p = order@[x] as int;
            assert(slot_ok(fs, keys@[p]@, states@[p]@, bests@[p], n));
            lemma_fold_key(fs, keys@[p]@, n);
        }
        assert forall|m: int| 0 <= m < fs.len() implies exists|x: int|
            0 <= x < fo.len() && (#[trigger] fo[x]).event_uid == Some(
                event_key(#[trigger] fs[m], m as nat),
            ) by {
            let p = choose|p: int|
                0 <= p < keys@.len() && (#[trigger] keys@[p])@ == event_key(fs[m], m as nat);
            assert(listed(order@, p));
            let x = choose|x: int| 0 <= x < order@.len() && #[trigger] order@[x] == p;
            assert(slot_ok(fs, keys@[p]@, states@[p]@, bests@[p], n));
            lemma_fold_key(fs, keys@[p]@, n);
            assert(fo[x] == states@[p]@);
        }
        assert forall|x: int, y: int| 0 <= x < y < fo.len() implies ranks_above(
            best_order(fs, state_key(#[trigger] fo[x]), fs.len())->0,
            best_order(fs, state_key(#[trigger] fo[y]), fs.len())->0,
        ) by {
            let p = order@[x] as int;
            let q = order@[y] as int;
            assert(slot_ok(fs, keys@[p]@, states@[p]@, bests@[p], n));
            assert(slot_ok(fs, keys@[q]@, states@[q]@, bests@[q], n));
            lemma_fold_key(fs, keys@[p]@, n);
            lemma_fold_key(fs, keys@[q]@, n);
            assert(above_spec(bests@[p], bests@[q]));
        }
    }
    out
}

spec fn listed(o: Seq<usize>, t: int) -> bool {
    exists|j: int| 0 <= j < o.len() && o[j] == t
}

spec fn above_spec(a: (i64, usize), b: (i64, usize)) -> bool {
    ranks_above((a.0, a.1 as nat), (b.0, b.1 as nat))
}

} // verus!
