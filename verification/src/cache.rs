//! The mathematical model of a bounded recency cache: an ordered sequence of
//! key/value pairs with move-to-front on hit, duplicate removal on insert,
//! and eviction from the back on overflow.
//!
//! Every concrete cache of this crate states its contract over this one
//! model, so the laws proved here — a lookup returns exactly what was
//! stored, lookups never alter stored values, and a full cache evicts its
//! coldest entry — hold of each of them.

use vstd::prelude::*;

verus! {

/// The value stored under the first occurrence of `key`, or `None`.
pub open spec fn model_find<K, V>(entries: Seq<(K, V)>, key: K) -> Option<V>
    decreases entries.len(),
{
    if entries.len() == 0 {
        None
    } else if entries[0].0 == key {
        Some(entries[0].1)
    } else {
        model_find(entries.drop_first(), key)
    }
}

/// The entries with the first occurrence of `key` removed.
pub open spec fn model_remove<K, V>(entries: Seq<(K, V)>, key: K) -> Seq<(K, V)>
    decreases entries.len(),
{
    if entries.len() == 0 {
        entries
    } else if entries[0].0 == key {
        entries.drop_first()
    } else {
        seq![entries[0]] + model_remove(entries.drop_first(), key)
    }
}

/// The entries after a lookup of `key`: on a hit the entry moves to the
/// front, on a miss nothing changes.
pub open spec fn model_promote<K, V>(entries: Seq<(K, V)>, key: K) -> Seq<(K, V)> {
    match model_find(entries, key) {
        Some(v) => seq![(key, v)] + model_remove(entries, key),
        None => entries,
    }
}

/// The entries after an insert of `key -> value` into a cache with capacity
/// `cap`: any prior entry for the key is removed, the back entry is evicted
/// when the cache is still at capacity, and the new entry goes to the front.
pub open spec fn model_insert<K, V>(entries: Seq<(K, V)>, key: K, value: V, cap: int) -> Seq<
    (K, V),
> {
    let deduped = model_remove(entries, key);
    let trimmed = if deduped.len() >= cap {
        deduped.drop_last()
    } else {
        deduped
    };
    seq![(key, value)] + trimmed
}

/// A lookup immediately after an insert of the same key returns exactly the
/// inserted value.
pub proof fn lemma_insert_then_find<K, V>(entries: Seq<(K, V)>, key: K, value: V, cap: int)
    ensures
        model_find(model_insert(entries, key, value, cap), key) == Some(value),
{
}

/// No key occurs in the entries at all.
pub open spec fn model_absent<K, V>(entries: Seq<(K, V)>, key: K) -> bool {
    forall|i: int| 0 <= i < entries.len() ==> (#[trigger] entries[i]).0 != key
}

/// A find misses exactly when the key is absent.
pub proof fn lemma_find_none_iff_absent<K, V>(entries: Seq<(K, V)>, key: K)
    ensures
        model_find(entries, key) is None <==> model_absent(entries, key),
    decreases entries.len(),
{
    if entries.len() > 0 {
        lemma_find_none_iff_absent(entries.drop_first(), key);
        if entries[0].0 != key {
            assert forall|i: int|
                0 <= i < entries.len() && model_absent(entries.drop_first(), key) implies (
            #[trigger] entries[i]).0 != key by {
                if i > 0 {
                    assert(entries.drop_first()[i - 1] == entries[i]);
                }
            }
            assert(model_absent(entries, key) ==> model_absent(entries.drop_first(), key)) by {
                if model_absent(entries, key) {
                    assert forall|i: int|
                        0 <= i < entries.drop_first().len() implies (#[trigger] entries.drop_first(
                    )[i]).0 != key by {
                        assert(entries[i + 1] == entries.drop_first()[i]);
                    }
                }
            }
        }
    }
}

/// Removing an absent key changes nothing.
pub proof fn lemma_remove_absent<K, V>(entries: Seq<(K, V)>, key: K)
    requires
        model_absent(entries, key),
    ensures
        model_remove(entries, key) == entries,
    decreases entries.len(),
{
    if entries.len() > 0 {
        assert(entries[0].0 != key);
        assert forall|i: int| 0 <= i < entries.drop_first().len() implies (
        #[trigger] entries.drop_first()[i]).0 != key by {
            assert(entries[i + 1] == entries.drop_first()[i]);
        }
        lemma_remove_absent(entries.drop_first(), key);
        assert(seq![entries[0]] + entries.drop_first() =~= entries);
    }
}

/// Cache transparency: when every entry agrees with the function `m`, a
/// hit returns exactly `m`'s value for the key, and the recency reordering
/// of a lookup preserves that agreement. The cache can never alter an
/// observable result.
pub open spec fn model_agrees<K, V>(entries: Seq<(K, V)>, m: Map<K, V>) -> bool {
    forall|i: int|
        0 <= i < entries.len() ==> m.contains_key((#[trigger] entries[i]).0) && entries[i].1
            == m[entries[i].0]
}

/// A find in a cache that agrees with `m` can only return `m`'s value.
pub proof fn lemma_find_agrees<K, V>(entries: Seq<(K, V)>, m: Map<K, V>, key: K)
    requires
        model_agrees(entries, m),
    ensures
        match model_find(entries, key) {
            Some(v) => m.contains_key(key) && v == m[key],
            None => true,
        },
    decreases entries.len(),
{
    if entries.len() > 0 && entries[0].0 != key {
        assert forall|i: int| 0 <= i < entries.drop_first().len() implies m.contains_key(
            (#[trigger] entries.drop_first()[i]).0,
        ) && entries.drop_first()[i].1 == m[entries.drop_first()[i].0] by {
            assert(entries[i + 1] == entries.drop_first()[i]);
        }
        lemma_find_agrees(entries.drop_first(), m, key);
    }
}

/// Removal preserves agreement with `m`.
pub proof fn lemma_remove_agrees<K, V>(entries: Seq<(K, V)>, m: Map<K, V>, key: K)
    requires
        model_agrees(entries, m),
    ensures
        model_agrees(model_remove(entries, key), m),
    decreases entries.len(),
{
    if entries.len() > 0 {
        let rest = entries.drop_first();
        assert forall|i: int| 0 <= i < rest.len() implies m.contains_key(
            (#[trigger] rest[i]).0,
        ) && rest[i].1 == m[rest[i].0] by {
            assert(entries[i + 1] == rest[i]);
        }
        lemma_remove_agrees(rest, m, key);
        if entries[0].0 != key {
            let out = seq![entries[0]] + model_remove(rest, key);
            assert forall|i: int| 0 <= i < out.len() implies m.contains_key(
                (#[trigger] out[i]).0,
            ) && out[i].1 == m[out[i].0] by {
                if i > 0 {
                    assert(out[i] == model_remove(rest, key)[i - 1]);
                }
            }
        }
    }
}

/// The recency reordering of a lookup preserves agreement with `m`.
pub proof fn lemma_promote_agrees<K, V>(entries: Seq<(K, V)>, m: Map<K, V>, key: K)
    requires
        model_agrees(entries, m),
    ensures
        model_agrees(model_promote(entries, key), m),
{
    match model_find(entries, key) {
        Some(v) => {
            lemma_find_agrees(entries, m, key);
            lemma_remove_agrees(entries, m, key);
            let out = seq![(key, v)] + model_remove(entries, key);
            assert forall|i: int| 0 <= i < out.len() implies m.contains_key(
                (#[trigger] out[i]).0,
            ) && out[i].1 == m[out[i].0] by {
                if i > 0 {
                    assert(out[i] == model_remove(entries, key)[i - 1]);
                }
            }
        },
        None => {},
    }
}

/// Inserting the function's own value preserves agreement with `m`.
pub proof fn lemma_insert_agrees<K, V>(entries: Seq<(K, V)>, m: Map<K, V>, key: K, value: V, cap: int)
    requires
        1 <= cap,
        model_agrees(entries, m),
        m.contains_key(key),
        m[key] == value,
    ensures
        model_agrees(model_insert(entries, key, value, cap), m),
{
    lemma_remove_agrees(entries, m, key);
    let deduped = model_remove(entries, key);
    let trimmed = if deduped.len() >= cap {
        deduped.drop_last()
    } else {
        deduped
    };
    assert(model_agrees(trimmed, m)) by {
        if deduped.len() >= cap {
            assert forall|i: int| 0 <= i < trimmed.len() implies m.contains_key(
                (#[trigger] trimmed[i]).0,
            ) && trimmed[i].1 == m[trimmed[i].0] by {
                assert(trimmed[i] == deduped[i]);
            }
        }
    }
    let out = seq![(key, value)] + trimmed;
    assert forall|i: int| 0 <= i < out.len() implies m.contains_key((#[trigger] out[i]).0)
        && out[i].1 == m[out[i].0] by {
        if i > 0 {
            assert(out[i] == trimmed[i - 1]);
        }
    }
}

/// When the first `i` pairs miss and pair `i` matches, the lookup returns
/// pair `i`'s value.
pub proof fn lemma_find_at<K, V>(kv: Seq<(K, V)>, key: K, i: int)
    requires
        0 <= i < kv.len(),
        kv[i].0 == key,
        forall|j: int| 0 <= j < i ==> (#[trigger] kv[j]).0 != key,
    ensures
        model_find(kv, key) == Some(kv[i].1),
    decreases i,
{
    if i > 0 {
        let rest = kv.drop_first();
        assert forall|j: int| 0 <= j < i - 1 implies (#[trigger] rest[j]).0 != key by {
            assert(rest[j] == kv[j + 1]);
        }
        assert(rest[i - 1] == kv[i]);
        lemma_find_at(rest, key, i - 1);
    }
}

/// Removing the first matching pair is removal at its position.
pub proof fn lemma_remove_at<K, V>(kv: Seq<(K, V)>, key: K, i: int)
    requires
        0 <= i < kv.len(),
        kv[i].0 == key,
        forall|j: int| 0 <= j < i ==> (#[trigger] kv[j]).0 != key,
    ensures
        model_remove(kv, key) == kv.remove(i),
    decreases i,
{
    if i == 0 {
        assert(kv.remove(0) =~= kv.drop_first());
    } else {
        let rest = kv.drop_first();
        assert forall|j: int| 0 <= j < i - 1 implies (#[trigger] rest[j]).0 != key by {
            assert(rest[j] == kv[j + 1]);
        }
        assert(rest[i - 1] == kv[i]);
        lemma_remove_at(rest, key, i - 1);
        assert(kv.remove(i) =~= seq![kv[0]] + rest.remove(i - 1));
    }
}

/// A hit's promotion moves exactly the matching pair to the front.
pub proof fn lemma_promote_at<K, V>(kv: Seq<(K, V)>, key: K, i: int)
    requires
        0 <= i < kv.len(),
        kv[i].0 == key,
        forall|j: int| 0 <= j < i ==> (#[trigger] kv[j]).0 != key,
    ensures
        model_promote(kv, key) == seq![kv[i]] + kv.remove(i),
{
    lemma_find_at(kv, key, i);
    lemma_remove_at(kv, key, i);
    assert(kv[i] == (key, kv[i].1));
    assert(model_promote(kv, key) =~= seq![kv[i]] + kv.remove(i));
}

/// Folds a sequence of inserts into the cache, oldest first.
pub open spec fn model_insert_all<K, V>(entries: Seq<(K, V)>, kvs: Seq<(K, V)>, cap: int) -> Seq<
    (K, V),
>
    decreases kvs.len(),
{
    if kvs.len() == 0 {
        entries
    } else {
        model_insert_all(
            model_insert(entries, kvs[0].0, kvs[0].1, cap),
            kvs.drop_first(),
            cap,
        )
    }
}

/// All keys of the pair sequence are pairwise distinct.
pub open spec fn distinct_keys<K, V>(kvs: Seq<(K, V)>) -> bool {
    forall|i: int, j: int| 0 <= i < j < kvs.len() ==> (#[trigger] kvs[i]).0 != (#[trigger] kvs[j]).0
}

proof fn lemma_insert_all_shape<K, V>(kvs: Seq<(K, V)>, cap: int, i: int)
    requires
        1 <= cap,
        distinct_keys(kvs),
        0 <= i <= kvs.len(),
    ensures
        ({
            let state = model_insert_all(Seq::empty(), kvs.take(i), cap);
            &&& state.len() == if i >= cap {
                cap
            } else {
                i
            }
            &&& forall|t: int| 0 <= t < state.len() ==> #[trigger] state[t] == kvs[i - 1 - t]
        }),
    decreases i,
{
    if i > 0 {
        lemma_insert_all_shape(kvs, cap, i - 1);
        let prev = model_insert_all(Seq::empty(), kvs.take(i - 1), cap);
        // the key being inserted is absent from the previous state
        assert(model_absent(prev, kvs[i - 1].0)) by {
            assert forall|t: int| 0 <= t < prev.len() implies (#[trigger] prev[t]).0 != kvs[i
                - 1].0 by {
                assert(prev[t] == kvs[i - 2 - t]);
                assert(0 <= i - 2 - t < i - 1);
            }
        }
        lemma_remove_absent(prev, kvs[i - 1].0);
        lemma_insert_all_unfold(kvs, cap, i);
        let state = model_insert_all(Seq::empty(), kvs.take(i), cap);
        assert(state == model_insert(prev, kvs[i - 1].0, kvs[i - 1].1, cap));
        if prev.len() >= cap {
            let trimmed = prev.drop_last();
            assert(state =~= seq![kvs[i - 1]] + trimmed);
            assert forall|t: int| 0 <= t < state.len() implies #[trigger] state[t] == kvs[i - 1
                - t] by {
                if t > 0 {
                    assert(trimmed[t - 1] == prev[t - 1]);
                    assert(prev[t - 1] == kvs[i - 2 - (t - 1)]);
                }
            }
        } else {
            assert(state =~= seq![kvs[i - 1]] + prev);
            assert forall|t: int| 0 <= t < state.len() implies #[trigger] state[t] == kvs[i - 1
                - t] by {
                if t > 0 {
                    assert(state[t] == prev[t - 1]);
                    assert(prev[t - 1] == kvs[i - 2 - (t - 1)]);
                }
            }
        }
    }
}

/// Unfolds one step of `model_insert_all` from the right.
proof fn lemma_insert_all_unfold<K, V>(kvs: Seq<(K, V)>, cap: int, i: int)
    requires
        1 <= i <= kvs.len(),
    ensures
        model_insert_all(Seq::empty(), kvs.take(i), cap) == model_insert(
            model_insert_all(Seq::empty(), kvs.take(i - 1), cap),
            kvs[i - 1].0,
            kvs[i - 1].1,
            cap,
        ),
{
    lemma_insert_all_snoc(Seq::empty(), kvs.take(i), cap);
    assert(kvs.take(i).drop_last() =~= kvs.take(i - 1));
    assert(kvs.take(i).last() == kvs[i - 1]);
}

/// Unfolds one insert from the right of a fold of inserts.
pub proof fn lemma_insert_all_snoc<K, V>(entries: Seq<(K, V)>, kvs: Seq<(K, V)>, cap: int)
    requires
        kvs.len() >= 1,
    ensures
        model_insert_all(entries, kvs, cap) == model_insert(
            model_insert_all(entries, kvs.drop_last(), cap),
            kvs.last().0,
            kvs.last().1,
            cap,
        ),
    decreases kvs.len(),
{
    let stepped = model_insert(entries, kvs[0].0, kvs[0].1, cap);
    assert(model_insert_all(entries, kvs, cap) == model_insert_all(
        stepped,
        kvs.drop_first(),
        cap,
    ));
    if kvs.len() == 1 {
        assert(kvs.drop_last() =~= Seq::<(K, V)>::empty());
        assert(kvs.drop_first() =~= Seq::<(K, V)>::empty());
        assert(model_insert_all(entries, kvs.drop_last(), cap) == entries);
        assert(model_insert_all(stepped, kvs.drop_first(), cap) == stepped);
        assert(kvs.last() == kvs[0]);
    } else {
        lemma_insert_all_snoc(stepped, kvs.drop_first(), cap);
        assert(kvs.drop_first().drop_last() =~= kvs.drop_last().drop_first());
        assert(kvs.drop_first().last() == kvs.last());
        assert(kvs.drop_last()[0] == kvs[0]);
        assert(kvs.drop_last().len() >= 1);
        assert(model_insert_all(entries, kvs.drop_last(), cap) == model_insert_all(
            model_insert(entries, kvs.drop_last()[0].0, kvs.drop_last()[0].1, cap),
            kvs.drop_last().drop_first(),
            cap,
        ));
    }
}

/// Eviction: inserting `cap + 1` distinct keys into an empty cache of
/// capacity `cap` leaves the first-inserted key a miss.
pub proof fn lemma_eviction<K, V>(kvs: Seq<(K, V)>, cap: int)
    requires
        1 <= cap,
        distinct_keys(kvs),
        kvs.len() == cap + 1,
    ensures
        model_find(model_insert_all(Seq::empty(), kvs, cap), kvs[0].0) is None,
{
    lemma_insert_all_shape(kvs, cap, cap + 1);
    assert(kvs.take(cap + 1) =~= kvs);
    let state = model_insert_all(Seq::empty(), kvs, cap);
    assert(model_absent(state, kvs[0].0)) by {
        assert forall|t: int| 0 <= t < state.len() implies (#[trigger] state[t]).0 != kvs[0].0 by {
            assert(state[t] == kvs[cap + 1 - 1 - t]);
            assert(1 <= cap - t < cap + 1);
        }
    }
    lemma_find_none_iff_absent(state, kvs[0].0);
}


/// No two pairs share a key.
pub open spec fn distinct_model_keys<K, V>(entries: Seq<(K, V)>) -> bool {
    forall|i: int, j: int|
        0 <= i < j < entries.len() ==> (#[trigger] entries[i]).0 != (#[trigger] entries[j]).0
}

/// Removal keeps keys distinct and leaves the removed key absent.
proof fn lemma_remove_distinct<K, V>(entries: Seq<(K, V)>, key: K)
    requires
        distinct_model_keys(entries),
    ensures
        distinct_model_keys(model_remove(entries, key)),
        model_absent(model_remove(entries, key), key),
    decreases entries.len(),
{
    if entries.len() > 0 {
        let rest = entries.drop_first();
        assert forall|i: int, j: int| 0 <= i < j < rest.len() implies (#[trigger] rest[i]).0 != (
        #[trigger] rest[j]).0 by {
            assert(rest[i] == entries[i + 1] && rest[j] == entries[j + 1]);
        }
        lemma_remove_distinct(rest, key);
        if entries[0].0 == key {
            assert forall|i: int| 0 <= i < rest.len() implies (#[trigger] rest[i]).0 != key by {
                assert(rest[i] == entries[i + 1]);
            }
        } else {
            let out = seq![entries[0]] + model_remove(rest, key);
            assert forall|i: int, j: int| 0 <= i < j < out.len() implies (#[trigger] out[i]).0 != (
            #[trigger] out[j]).0 by {
                if i == 0 {
                    lemma_remove_keeps_members(rest, key, j - 1);
                } else {
                    assert(out[i] == model_remove(rest, key)[i - 1]);
                    assert(out[j] == model_remove(rest, key)[j - 1]);
                }
            }
            assert forall|i: int| 0 <= i < out.len() implies (#[trigger] out[i]).0 != key by {
                if i > 0 {
                    assert(out[i] == model_remove(rest, key)[i - 1]);
                }
            }
        }
    }
}

/// Every pair that removal keeps was already present.
proof fn lemma_remove_keeps_members<K, V>(entries: Seq<(K, V)>, key: K, i: int)
    requires
        0 <= i < model_remove(entries, key).len(),
    ensures
        entries.contains(model_remove(entries, key)[i]),
    decreases entries.len(),
{
    if entries.len() > 0 {
        if entries[0].0 == key {
            assert(entries[i + 1] == model_remove(entries, key)[i]);
        } else {
            let out = seq![entries[0]] + model_remove(entries.drop_first(), key);
            if i == 0 {
                assert(entries[0] == out[0]);
            } else {
                lemma_remove_keeps_members(entries.drop_first(), key, i - 1);
                let e = model_remove(entries.drop_first(), key)[i - 1];
                let k = choose|k: int|
                    0 <= k < entries.drop_first().len() && entries.drop_first()[k] == e;
                assert(entries[k + 1] == e);
            }
        }
    }
}

/// The no-duplicate invariant of every cache: an insert removes any prior
/// entry for its key before taking the front, so distinct keys stay
/// distinct.
pub proof fn lemma_insert_keeps_keys_distinct<K, V>(
    entries: Seq<(K, V)>,
    key: K,
    value: V,
    cap: int,
)
    requires
        distinct_model_keys(entries),
        1 <= cap,
    ensures
        distinct_model_keys(model_insert(entries, key, value, cap)),
{
    lemma_remove_distinct(entries, key);
    let deduped = model_remove(entries, key);
    let trimmed = if deduped.len() >= cap {
        deduped.drop_last()
    } else {
        deduped
    };
    assert(distinct_model_keys(trimmed) && model_absent(trimmed, key)) by {
        if deduped.len() >= cap {
            assert forall|i: int, j: int| 0 <= i < j < trimmed.len() implies (
            #[trigger] trimmed[i]).0 != (#[trigger] trimmed[j]).0 by {
                assert(trimmed[i] == deduped[i] && trimmed[j] == deduped[j]);
            }
            assert forall|i: int| 0 <= i < trimmed.len() implies (#[trigger] trimmed[i]).0
                != key by {
                assert(trimmed[i] == deduped[i]);
            }
        }
    }
    let out = seq![(key, value)] + trimmed;
    assert forall|i: int, j: int| 0 <= i < j < out.len() implies (#[trigger] out[i]).0 != (
    #[trigger] out[j]).0 by {
        if i == 0 {
            assert(out[j] == trimmed[j - 1]);
        } else {
            assert(out[i] == trimmed[i - 1] && out[j] == trimmed[j - 1]);
        }
    }
}

/// A lookup only reorders the entries, so distinct keys stay distinct.
pub proof fn lemma_promote_keeps_keys_distinct<K, V>(entries: Seq<(K, V)>, key: K)
    requires
        distinct_model_keys(entries),
    ensures
        distinct_model_keys(model_promote(entries, key)),
{
    match model_find(entries, key) {
        Some(v) => {
            lemma_remove_distinct(entries, key);
            let out = seq![(key, v)] + model_remove(entries, key);
            assert forall|i: int, j: int| 0 <= i < j < out.len() implies (#[trigger] out[i]).0 != (
            #[trigger] out[j]).0 by {
                if i == 0 {
                    assert(out[j] == model_remove(entries, key)[j - 1]);
                } else {
                    assert(out[i] == model_remove(entries, key)[i - 1]);
                    assert(out[j] == model_remove(entries, key)[j - 1]);
                }
            }
        },
        None => {},
    }
}


/// Folds a sequence of lookups over the cache, oldest first: each one moves
/// its key's entry to the front when present.
pub open spec fn model_promote_all<K, V>(entries: Seq<(K, V)>, keys: Seq<K>) -> Seq<(K, V)>
    decreases keys.len(),
{
    if keys.len() == 0 {
        entries
    } else {
        model_promote_all(model_promote(entries, keys[0]), keys.drop_first())
    }
}

/// Unfolds one lookup from the right of a fold of lookups.
pub proof fn lemma_promote_all_snoc<K, V>(entries: Seq<(K, V)>, keys: Seq<K>)
    requires
        keys.len() >= 1,
    ensures
        model_promote_all(entries, keys) == model_promote(
            model_promote_all(entries, keys.drop_last()),
            keys.last(),
        ),
    decreases keys.len(),
{
    let stepped = model_promote(entries, keys[0]);
    assert(model_promote_all(entries, keys) == model_promote_all(stepped, keys.drop_first()));
    if keys.len() == 1 {
        assert(keys.drop_last() =~= Seq::<K>::empty());
        assert(keys.drop_first() =~= Seq::<K>::empty());
        assert(model_promote_all(entries, keys.drop_last()) == entries);
        assert(model_promote_all(stepped, keys.drop_first()) == stepped);
        assert(keys.last() == keys[0]);
    } else {
        lemma_promote_all_snoc(stepped, keys.drop_first());
        assert(keys.drop_first().drop_last() =~= keys.drop_last().drop_first());
        assert(keys.drop_first().last() == keys.last());
        assert(keys.drop_last()[0] == keys[0]);
        assert(keys.drop_last().len() >= 1);
        assert(model_promote_all(entries, keys.drop_last()) == model_promote_all(
            model_promote(entries, keys.drop_last()[0]),
            keys.drop_last().drop_first(),
        ));
    }
}

} // verus!
