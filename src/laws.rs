//! Laws that relate aggregation and retention.

use vstd::prelude::*;
use crate::record::{Fact, event_key, merge_facts, later, legacy_key};
use crate::text::{decimal, digit_char, is_digit};
use crate::aggregate::{
    is_aggregate, fold_key, best_order, ranks_above, state_key, opened, lemma_fold_key, key_seen,
};
use crate::retention::{is_retention, keyed_filter, top_keys};

verus! {

/// The keys of a sequence of merged states.
pub open spec fn keys_of(states: Seq<Fact>) -> Seq<Seq<char>> {
    states.map_values(|s: Fact| state_key(s))
}

/// The states of an aggregate have pairwise distinct keys, each seen in the facts.
pub proof fn lemma_aggregate_keys(fs: Seq<Fact>, out: Seq<Fact>)
    requires
        is_aggregate(fs, out),
    ensures
        keys_of(out).no_duplicates(),
        forall|j: int| 0 <= j < out.len() ==> key_seen(fs, #[trigger] keys_of(out)[j], fs.len()),
{
    assert forall|j: int, l: int| 0 <= j < out.len() && 0 <= l < out.len() && j != l implies
        #[trigger] keys_of(out)[j] != #[trigger] keys_of(out)[l] by {
        if j < l {
            assert(ranks_above(
                best_order(fs, state_key(out[j]), fs.len())->0,
                best_order(fs, state_key(out[l]), fs.len())->0,
            ));
        } else {
            assert(ranks_above(
                best_order(fs, state_key(out[l]), fs.len())->0,
                best_order(fs, state_key(out[j]), fs.len())->0,
            ));
        }
    }
    assert forall|j: int| 0 <= j < out.len() implies key_seen(fs, #[trigger] keys_of(out)[j], fs.len()) by {
        assert(out[j].event_uid is Some);
        lemma_fold_key(fs, state_key(out[j]), fs.len());
    }
}

/// An aggregate has no more states than any list that holds every key of the facts.
pub proof fn lemma_aggregate_len_bound(fs: Seq<Fact>, out: Seq<Fact>, ks: Seq<Seq<char>>)
    requires
        is_aggregate(fs, out),
        forall|m: int| 0 <= m < fs.len() ==> ks.contains(event_key(#[trigger] fs[m], m as nat)),
    ensures
        out.len() <= ks.len(),
{
    lemma_aggregate_keys(fs, out);
    let kv = keys_of(out);
    assert forall|k: Seq<char>| kv.to_set().contains(k) implies ks.to_set().contains(k) by {
        let j = choose|j: int| 0 <= j < kv.len() && kv[j] == k;
        assert(key_seen(fs, kv[j], fs.len()));
        let m = choose|m: int| 0 <= m < fs.len() && event_key(#[trigger] fs[m], m as nat) == k;
        assert(ks.contains(event_key(fs[m], m as nat)));
    }
    kv.unique_seq_to_set();
    ks.lemma_cardinality_of_set();
    vstd::set_lib::lemma_len_subset(kv.to_set(), ks.to_set());
}

/// Two aggregates of the same facts have the same number of states.
pub proof fn lemma_aggregate_len_unique(fs: Seq<Fact>, a: Seq<Fact>, b: Seq<Fact>)
    requires
        is_aggregate(fs, a),
        is_aggregate(fs, b),
    ensures
        a.len() == b.len(),
{
    assert forall|m: int| 0 <= m < fs.len() implies keys_of(b).contains(
        event_key(#[trigger] fs[m], m as nat),
    ) by {
        let j = choose|j: int| 0 <= j < b.len() && (#[trigger] b[j]).event_uid == Some(event_key(fs[m], m as nat));
        assert(keys_of(b)[j] == event_key(fs[m], m as nat));
    }
    assert forall|m: int| 0 <= m < fs.len() implies keys_of(a).contains(
        event_key(#[trigger] fs[m], m as nat),
    ) by {
        let j = choose|j: int| 0 <= j < a.len() && (#[trigger] a[j]).event_uid == Some(event_key(fs[m], m as nat));
        assert(keys_of(a)[j] == event_key(fs[m], m as nat));
    }
    lemma_aggregate_len_bound(fs, a, keys_of(b));
    lemma_aggregate_len_bound(fs, b, keys_of(a));
}

/// In an aggregate, the keys ranked above the state at `j` are exactly those of
/// the states before it.
proof fn lemma_above_prefix(fs: Seq<Fact>, a: Seq<Fact>, j: int, k2: Seq<char>)
    requires
        is_aggregate(fs, a),
        0 <= j < a.len(),
        key_seen(fs, k2, fs.len()),
    ensures
        keys_of(a.take(j)).contains(k2) <==> ranks_above(
            best_order(fs, k2, fs.len())->0,
            best_order(fs, state_key(a[j]), fs.len())->0,
        ),
{
    lemma_aggregate_keys(fs, a);
    let m = choose|m: int| 0 <= m < fs.len() && event_key(#[trigger] fs[m], m as nat) == k2;
    let i = choose|i: int| 0 <= i < a.len() && (#[trigger] a[i]).event_uid == Some(event_key(fs[m], m as nat));
    assert(keys_of(a)[i] == k2);
    if keys_of(a.take(j)).contains(k2) {
        let x = choose|x: int| 0 <= x < j && keys_of(a.take(j))[x] == k2;
        assert(keys_of(a)[x] == k2);
        assert(ranks_above(
            best_order(fs, state_key(a[x]), fs.len())->0,
            best_order(fs, state_key(a[j]), fs.len())->0,
        ));
    } else {
        if i < j {
            assert(keys_of(a.take(j))[i] == k2);
        }
        if i > j {
            assert(ranks_above(
                best_order(fs, state_key(a[j]), fs.len())->0,
                best_order(fs, state_key(a[i]), fs.len())->0,
            ));
        }
    }
}

/// Aggregation is deterministic: two aggregates of the same facts are equal.
pub proof fn lemma_aggregate_unique(fs: Seq<Fact>, a: Seq<Fact>, b: Seq<Fact>)
    requires
        is_aggregate(fs, a),
        is_aggregate(fs, b),
    ensures
        a == b,
{
    lemma_aggregate_len_unique(fs, a, b);
    lemma_aggregate_keys(fs, a);
    lemma_aggregate_keys(fs, b);
    assert forall|j: int| 0 <= j < a.len() implies #[trigger] a[j] == b[j] by {
        let k = state_key(a[j]);
        assert(key_seen(fs, keys_of(a)[j], fs.len()));
        let m = choose|m: int| 0 <= m < fs.len() && event_key(#[trigger] fs[m], m as nat) == k;
        let l = choose|l: int| 0 <= l < b.len() && (#[trigger] b[l]).event_uid == Some(event_key(fs[m], m as nat));
        assert(b[l].event_uid is Some);
        assert(a[j].event_uid is Some);
        assert(state_key(b[l]) == k);
        let sa = keys_of(a.take(j));
        let sb = keys_of(b.take(l));
        assert forall|k2: Seq<char>| sa.to_set().contains(k2) <==> sb.to_set().contains(k2) by {
            if sa.contains(k2) {
                let x = choose|x: int| 0 <= x < sa.len() && sa[x] == k2;
                assert(sa[x] == keys_of(a)[x]);
                assert(key_seen(fs, keys_of(a)[x], fs.len()));
                lemma_above_prefix(fs, a, j, k2);
                lemma_above_prefix(fs, b, l, k2);
            }
            if sb.contains(k2) {
                let y = choose|y: int| 0 <= y < sb.len() && sb[y] == k2;
                assert(sb[y] == keys_of(b)[y]);
                assert(key_seen(fs, keys_of(b)[y], fs.len()));
                lemma_above_prefix(fs, a, j, k2);
                lemma_above_prefix(fs, b, l, k2);
            }
        }
        assert(sa.to_set() =~= sb.to_set());
        assert forall|x: int, y: int| 0 <= x < sa.len() && 0 <= y < sa.len() && x != y implies sa[x] != sa[y] by {
            assert(sa[x] == keys_of(a)[x] && sa[y] == keys_of(a)[y]);
        }
        assert forall|x: int, y: int| 0 <= x < sb.len() && 0 <= y < sb.len() && x != y implies sb[x] != sb[y] by {
            assert(sb[x] == keys_of(b)[x] && sb[y] == keys_of(b)[y]);
        }
        sa.unique_seq_to_set();
        sb.unique_seq_to_set();
        assert(j == l);
        assert(fold_key(fs, k, fs.len()) == Some(a[j]));
        assert(fold_key(fs, state_key(b[l]), fs.len()) == Some(b[l]));
    }
    assert(a =~= b);
}

/// In a sequence where only position `j` has key `k`, the fold of `k` is that one
/// fact merged into its opening state.
proof fn lemma_fold_single(s: Seq<Fact>, k: Seq<char>, j: int, n: nat)
    requires
        0 <= j < s.len(),
        n <= s.len(),
        event_key(s[j], j as nat) == k,
        forall|m: int| 0 <= m < s.len() && m != j ==> event_key(#[trigger] s[m], m as nat) != k,
    ensures
        fold_key(s, k, n) == if n <= j {
            None
        } else {
            Some(merge_facts(opened(s[j].id, k), s[j]))
        },
    decreases n,
{
    if n > 0 {
        lemma_fold_single(s, k, j, (n - 1) as nat);
    }
}

/// Reading the merged states back as facts and aggregating them again gives the
/// same states: each state of either aggregate is a state of the other.
pub proof fn lemma_aggregate_idempotent(fs: Seq<Fact>, out: Seq<Fact>, again: Seq<Fact>)
    requires
        is_aggregate(fs, out),
        is_aggregate(out, again),
    ensures
        forall|l: int| 0 <= l < again.len() ==> out.contains(#[trigger] again[l]),
        forall|j: int| 0 <= j < out.len() ==> again.contains(#[trigger] out[j]),
        again.len() == out.len(),
{
    lemma_aggregate_keys(fs, out);
    let kv = keys_of(out);
    assert forall|j: int| 0 <= j < out.len() implies event_key(#[trigger] out[j], j as nat) == kv[j] by {
        assert(out[j].event_uid is Some);
    }
    assert forall|j: int| 0 <= j < out.len() implies fold_key(out, kv[j], out.len()) == Some(
        #[trigger] out[j],
    ) by {
        assert(out[j].event_uid is Some);
        assert forall|m: int| 0 <= m < out.len() && m != j implies event_key(#[trigger] out[m], m as nat)
            != kv[j] by {
            assert(event_key(out[m], m as nat) == kv[m]);
        }
        lemma_fold_single(out, kv[j], j, out.len());
        let o = out[j];
        assert(merge_facts(opened(o.id, kv[j]), o) == o);
    }
    assert forall|l: int| 0 <= l < again.len() implies out.contains(#[trigger] again[l]) by {
        let k = state_key(again[l]);
        lemma_fold_key(out, k, out.len());
        let m = choose|m: int| 0 <= m < out.len() && event_key(#[trigger] out[m], m as nat) == k;
        assert(fold_key(out, kv[m], out.len()) == Some(out[m]));
    }
    assert forall|j: int| 0 <= j < out.len() implies again.contains(#[trigger] out[j]) by {
        assert(event_key(out[j], j as nat) == kv[j]);
        let l = choose|l: int|
            0 <= l < again.len() && (#[trigger] again[l]).event_uid == Some(
                event_key(out[j], j as nat),
            );
        assert(fold_key(out, kv[j], out.len()) == Some(out[j]));
    }
    lemma_aggregate_keys(out, again);
    assert forall|m: int| 0 <= m < out.len() implies kv.contains(event_key(#[trigger] out[m], m as nat)) by {
        assert(event_key(out[m], m as nat) == kv[m]);
    }
    lemma_aggregate_len_bound(out, again, kv);
    assert forall|m: int| 0 <= m < out.len() implies keys_of(again).contains(
        event_key(#[trigger] out[m], m as nat),
    ) by {
        let l = choose|l: int|
            0 <= l < again.len() && (#[trigger] again[l]).event_uid == Some(
                event_key(out[m], m as nat),
            );
        assert(keys_of(again)[l] == event_key(out[m], m as nat));
    }
    lemma_aggregate_len_bound(fs, out, keys_of(again));
    assert forall|m: int| 0 <= m < fs.len() implies keys_of(out).contains(
        event_key(#[trigger] fs[m], m as nat),
    ) by {
        let j = choose|j: int| 0 <= j < out.len() && (#[trigger] out[j]).event_uid == Some(event_key(fs[m], m as nat));
        assert(keys_of(out)[j] == event_key(fs[m], m as nat));
    }
}

/// Field-level last write wins: an earlier and a later fact of the same event merge
/// into one state whose every field is the later fact's where present, else the
/// earlier fact's.
pub proof fn lemma_merge_interleaving(a: Fact, b: Fact, out: Seq<Fact>)
    requires
        a.event_uid is Some,
        b.event_uid == a.event_uid,
        is_aggregate(seq![a, b], out),
    ensures
        out.len() == 1,
        out[0] == (Fact {
            event_uid: a.event_uid,
            id: a.id,
            epoch: later(a.epoch, b.epoch),
            hhmm: later(a.hhmm, b.hhmm),
            app_name: later(a.app_name, b.app_name),
            summary: later(a.summary, b.summary),
            body: later(a.body, b.body),
            close_reason_code: later(a.close_reason_code, b.close_reason_code),
            close_reason: later(a.close_reason, b.close_reason),
            closed_epoch: later(a.closed_epoch, b.closed_epoch),
            closed_hhmm: later(a.closed_hhmm, b.closed_hhmm),
        }),
{
    let fs = seq![a, b];
    let k = a.event_uid->0;
    assert(event_key(fs[0], 0) == k);
    assert(event_key(fs[1], 1) == k);
    lemma_aggregate_keys(fs, out);
    assert forall|j: int| 0 <= j < out.len() implies #[trigger] keys_of(out)[j] == k by {
        assert(key_seen(fs, keys_of(out)[j], 2));
        let m = choose|m: int| 0 <= m < 2 && event_key(#[trigger] fs[m], m as nat) == keys_of(out)[j];
        assert(fs[m] == a || fs[m] == b);
    }
    if out.len() >= 2 {
        assert(keys_of(out)[0] == keys_of(out)[1]);
    }
    let j = choose|j: int| 0 <= j < out.len() && (#[trigger] out[j]).event_uid == Some(event_key(fs[0], 0));
    assert(fold_key(fs, k, 0) is None);
    assert(fold_key(fs, k, 1) == Some(merge_facts(opened(a.id, k), a)));
    assert(fold_key(fs, state_key(out[0]), 2) == Some(out[0]));
}

/// Whether a text has the form of a synthetic key of a fact without event uid.
pub open spec fn is_legacy_form(u: Seq<char>) -> bool {
    exists|id: u32, m: nat| u == #[trigger] legacy_key(id, m)
}

proof fn lemma_digit(d: nat)
    requires
        d < 10,
    ensures
        digit_char(d) as int == '0' as int + d,
{
    let ds = seq!['0', '1', '2', '3', '4', '5', '6', '7', '8', '9'];
    assert(ds[0] == '0' && ds[1] == '1' && ds[2] == '2' && ds[3] == '3' && ds[4] == '4');
    assert(ds[5] == '5' && ds[6] == '6' && ds[7] == '7' && ds[8] == '8' && ds[9] == '9');
}

proof fn lemma_decimal_shape(n: nat)
    ensures
        decimal(n).len() >= 1,
        n < 10 <==> decimal(n).len() == 1,
        forall|i: int| 0 <= i < decimal(n).len() ==> is_digit(#[trigger] decimal(n)[i]),
    decreases n,
{
    if n < 10 {
        lemma_digit(n);
    } else {
        lemma_decimal_shape(n / 10);
        lemma_digit(n % 10);
        let d = decimal(n);
        assert forall|i: int| 0 <= i < d.len() implies is_digit(#[trigger] d[i]) by {
            if i < d.len() - 1 {
                assert(d[i] == decimal(n / 10)[i]);
            }
        }
    }
}

proof fn lemma_decimal_injective(n: nat, m: nat)
    requires
        decimal(n) == decimal(m),
    ensures
        n == m,
    decreases n,
{
    lemma_decimal_shape(n);
    lemma_decimal_shape(m);
    if n < 10 {
        lemma_digit(n);
        lemma_digit(m);
        assert(decimal(n)[0] == digit_char(n));
        assert(decimal(m)[0] == digit_char(m));
    } else {
        let a = decimal(n);
        let b = decimal(m);
        assert(a.drop_last() =~= decimal(n / 10));
        assert(b.drop_last() =~= decimal(m / 10));
        lemma_decimal_injective(n / 10, m / 10);
        lemma_digit(n % 10);
        lemma_digit(m % 10);
        assert(a.last() == b.last());
        assert(a.last() == digit_char(n % 10));
        assert(b.last() == digit_char(m % 10));
        assert(n % 10 == m % 10);
        assert(n == 10 * (n / 10) + n % 10);
        assert(m == 10 * (m / 10) + m % 10);
    }
}

proof fn lemma_legacy_injective(id1: u32, m1: nat, id2: u32, m2: nat)
    requires
        legacy_key(id1, m1) == legacy_key(id2, m2),
    ensures
        id1 == id2 && m1 == m2,
{
    let pre = seq!['l', 'e', 'g', 'a', 'c', 'y', ':'];
    let d1 = decimal(id1 as nat);
    let d2 = decimal(id2 as nat);
    let k = legacy_key(id1, m1);
    lemma_decimal_shape(id1 as nat);
    lemma_decimal_shape(id2 as nat);
    lemma_decimal_shape(m1);
    lemma_decimal_shape(m2);
    assert(k == pre + d1 + seq![':'] + decimal(m1));
    assert(k == pre + d2 + seq![':'] + decimal(m2));
    if d1.len() < d2.len() {
        assert(k[7 + d1.len() as int] == ':');
        assert(k[7 + d1.len() as int] == d2[d1.len() as int]);
        assert(is_digit(d2[d1.len() as int]));
    } else if d2.len() < d1.len() {
        assert(k[7 + d2.len() as int] == ':');
        assert(k[7 + d2.len() as int] == d1[d2.len() as int]);
        assert(is_digit(d1[d2.len() as int]));
    }
    assert(d1 =~= k.subrange(7, 7 + d1.len() as int));
    assert(d2 =~= k.subrange(7, 7 + d2.len() as int));
    lemma_decimal_injective(id1 as nat, id2 as nat);
    assert(decimal(m1) =~= k.subrange(8 + d1.len() as int, k.len() as int));
    assert(decimal(m2) =~= k.subrange(8 + d2.len() as int, k.len() as int));
    lemma_decimal_injective(m1, m2);
}

/// The file positions of the facts a keyed filter keeps, in order.
pub open spec fn kept_positions(fs: Seq<Fact>, keep: Seq<Seq<char>>, n: nat) -> Seq<int>
    decreases n,
{
    if n == 0 {
        Seq::empty()
    } else {
        let i = (n - 1) as nat;
        let prev = kept_positions(fs, keep, i);
        if keep.contains(event_key(fs[i as int], i)) {
            prev.push(i as int)
        } else {
            prev
        }
    }
}

proof fn lemma_kept_positions(fs: Seq<Fact>, keep: Seq<Seq<char>>, n: nat)
    requires
        n <= fs.len(),
    ensures
        kept_positions(fs, keep, n).len() == keyed_filter(fs, keep, n).len(),
        forall|x: int|
            0 <= x < kept_positions(fs, keep, n).len() ==> {
                let p = #[trigger] kept_positions(fs, keep, n)[x];
                &&& 0 <= p < n
                &&& keyed_filter(fs, keep, n)[x] == fs[p]
                &&& keep.contains(event_key(fs[p], p as nat))
            },
        forall|x: int, y: int|
            0 <= x < y < kept_positions(fs, keep, n).len() ==> #[trigger] kept_positions(fs, keep, n)[x]
                < #[trigger] kept_positions(fs, keep, n)[y],
    decreases n,
{
    if n > 0 {
        lemma_kept_positions(fs, keep, (n - 1) as nat);
    }
}

/// The position in `out` of a fact with key `k` (at its position in `out`).
spec fn position_of(out: Seq<Fact>, k: Seq<char>) -> int {
    choose|x: int| 0 <= x < out.len() && event_key(#[trigger] out[x], x as nat) == k
}

spec fn placed(out: Seq<Fact>, k: Seq<char>) -> bool {
    let x = position_of(out, k);
    0 <= x < out.len() && event_key(out[x], x as nat) == k
}

/// Count-bound retention leaves at most `cap` distinct event keys, and applying it
/// again leaves the log unchanged, provided no fact's event uid has the form of
/// the synthetic key of a fact without one.
pub proof fn lemma_retention_bounded_and_stable(
    fs: Seq<Fact>,
    cap: nat,
    out: Seq<Fact>,
    agg_out: Seq<Fact>,
    again: Seq<Fact>,
)
    requires
        cap > 0,
        forall|i: int|
            0 <= i < fs.len() ==> ((#[trigger] fs[i]).event_uid matches Some(u) ==> !is_legacy_form(u)),
        is_retention(fs, cap, out),
        is_aggregate(out, agg_out),
        is_retention(out, cap, again),
    ensures
        agg_out.len() <= cap,
        again == out,
{
    let agg = choose|agg: Seq<Fact>|
        #[trigger] is_aggregate(fs, agg) && if agg.len() <= cap {
            out == fs
        } else {
            out == keyed_filter(fs, top_keys(agg, cap), fs.len())
        };
    if agg.len() <= cap {
        lemma_aggregate_len_unique(fs, agg, agg_out);
    } else {
        let top = top_keys(agg, cap);
        let pos = kept_positions(fs, top, fs.len());
        lemma_kept_positions(fs, top, fs.len());
        assert(top.len() == cap);
        // The key each state of `agg_out` came from in `fs`.
        let image = |s: Fact| {
            let x = position_of(out, state_key(s));
            event_key(fs[pos[x]], pos[x] as nat)
        };
        lemma_aggregate_keys(out, agg_out);
        let kv = keys_of(agg_out);
        assert forall|j: int| 0 <= j < agg_out.len() implies placed(out, #[trigger] kv[j]) by {
            assert(key_seen(out, kv[j], out.len()));
        }
        let img = agg_out.map_values(image);
        assert forall|j: int| 0 <= j < img.len() implies top.contains(#[trigger] img[j]) by {
            let x = position_of(out, kv[j]);
            assert(placed(out, kv[j]));
            assert(img[j] == event_key(fs[pos[x]], pos[x] as nat));
        }
        assert forall|j: int, l: int| 0 <= j < img.len() && 0 <= l < img.len() && j != l implies
            #[trigger] img[j] != #[trigger] img[l] by {
            let x = position_of(out, kv[j]);
            let y = position_of(out, kv[l]);
            assert(placed(out, kv[j]));
            assert(placed(out, kv[l]));
            let px = pos[x];
            let py = pos[y];
            assert(out[x] == fs[px]);
            assert(out[y] == fs[py]);
            assert(kv[j] != kv[l]);
            if img[j] == img[l] {
                match (fs[px].event_uid, fs[py].event_uid) {
                    (Some(u), Some(v)) => {},
                    (Some(u), None) => {
                        assert(!is_legacy_form(u));
                        assert(u == legacy_key(fs[py].id, py as nat));
                    },
                    (None, Some(v)) => {
                        assert(!is_legacy_form(v));
                        assert(v == legacy_key(fs[px].id, px as nat));
                    },
                    (None, None) => {
                        lemma_legacy_injective(fs[px].id, px as nat, fs[py].id, py as nat);
                        if x < y {
                            assert(pos[x] < pos[y]);
                        } else if y < x {
                            assert(pos[y] < pos[x]);
                        }
                    },
                }
            }
        }
        img.unique_seq_to_set();
        top.lemma_cardinality_of_set();
        assert(img.to_set().subset_of(top.to_set()));
        vstd::set_lib::lemma_len_subset(img.to_set(), top.to_set());
    }
    let agg2 = choose|agg2: Seq<Fact>|
        #[trigger] is_aggregate(out, agg2) && if agg2.len() <= cap {
            again == out
        } else {
            again == keyed_filter(out, top_keys(agg2, cap), out.len())
        };
    lemma_aggregate_len_unique(out, agg2, agg_out);
}

} // verus!
