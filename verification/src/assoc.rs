//! Association lists: sequences of key-value pairs read as maps, later pairs
//! overriding earlier ones.

use vstd::prelude::*;

verus! {

/// The map that results from inserting each pair in turn.
pub open spec fn map_of_pairs<K, V>(e: Seq<(K, V)>) -> Map<K, V>
    decreases e.len(),
{
    if e.len() == 0 {
        Map::empty()
    } else {
        map_of_pairs(e.drop_last()).insert(e.last().0, e.last().1)
    }
}

/// No key occurs twice.
pub open spec fn distinct_keys<K, V>(e: Seq<(K, V)>) -> bool {
    forall|i: int, j: int| 0 <= i < j < e.len() ==> #[trigger] e[i].0 != #[trigger] e[j].0
}

/// The key occurs in the list.
pub open spec fn has_key<K, V>(e: Seq<(K, V)>, k: K) -> bool {
    exists|i: int| 0 <= i < e.len() && #[trigger] e[i].0 == k
}

pub proof fn lemma_distinct_drop_last<K, V>(e: Seq<(K, V)>)
    requires
        distinct_keys(e),
        e.len() > 0,
    ensures
        distinct_keys(e.drop_last()),
{
    let d = e.drop_last();
    assert forall|i: int, j: int| 0 <= i < j < d.len() implies #[trigger] d[i].0
        != #[trigger] d[j].0 by {
        assert(d[i] == e[i] && d[j] == e[j]);
    }
}

/// With distinct keys, the map holds each pair, and only the listed keys.
pub proof fn lemma_map_of_distinct<K, V>(e: Seq<(K, V)>)
    requires
        distinct_keys(e),
    ensures
        forall|i: int| 0 <= i < e.len() ==> #[trigger] map_of_pairs(e).contains_key(e[i].0)
            && map_of_pairs(e)[e[i].0] == e[i].1,
        forall|k: K| #[trigger] map_of_pairs(e).contains_key(k) <==> has_key(e, k),
        map_of_pairs(e).dom().finite(),
        map_of_pairs(e).dom().len() == e.len(),
    decreases e.len(),
{
    if e.len() > 0 {
        let d = e.drop_last();
        lemma_distinct_drop_last(e);
        lemma_map_of_distinct(d);
        assert forall|i: int| 0 <= i < e.len() implies #[trigger] map_of_pairs(e).contains_key(
            e[i].0,
        ) && map_of_pairs(e)[e[i].0] == e[i].1 by {
            if i < e.len() - 1 {
                assert(d[i] == e[i]);
                assert(e[i].0 != e[e.len() - 1].0);
                assert(map_of_pairs(d).contains_key(d[i].0));
            }
        }
        assert forall|k: K| #[trigger] map_of_pairs(e).contains_key(k) <==> has_key(e, k) by {
            if map_of_pairs(e).contains_key(k) {
                if k == e.last().0 {
                    assert(e[e.len() - 1].0 == k);
                } else {
                    assert(map_of_pairs(d).contains_key(k));
                    let i = choose|i: int| 0 <= i < d.len() && #[trigger] d[i].0 == k;
                    assert(e[i] == d[i]);
                }
            }
            if has_key(e, k) {
                let i = choose|i: int| 0 <= i < e.len() && #[trigger] e[i].0 == k;
                assert(map_of_pairs(e).contains_key(e[i].0));
            }
        }
        if map_of_pairs(d).contains_key(e.last().0) {
            let i = choose|i: int| 0 <= i < d.len() && #[trigger] d[i].0 == e.last().0;
            assert(e[i] == d[i]);
        }
    }
}

/// Updating the pair of an existing key is inserting into the map.
pub proof fn lemma_update_is_insert<K, V>(e: Seq<(K, V)>, i: int, kv: (K, V))
    requires
        distinct_keys(e),
        0 <= i < e.len(),
        e[i].0 == kv.0,
    ensures
        distinct_keys(e.update(i, kv)),
        map_of_pairs(e.update(i, kv)) == map_of_pairs(e).insert(kv.0, kv.1),
{
    let u = e.update(i, kv);
    assert(distinct_keys(u)) by {
        assert forall|a: int, b: int| 0 <= a < b < u.len() implies #[trigger] u[a].0
            != #[trigger] u[b].0 by {
            assert(u[a].0 == e[a].0 && u[b].0 == e[b].0);
        }
    }
    lemma_map_of_distinct(e);
    lemma_map_of_distinct(u);
    assert forall|k: K| #[trigger] map_of_pairs(u).contains_key(k) <==> map_of_pairs(e).insert(
        kv.0,
        kv.1,
    ).contains_key(k) by {
        if map_of_pairs(u).contains_key(k) {
            let j = choose|j: int| 0 <= j < u.len() && #[trigger] u[j].0 == k;
            assert(map_of_pairs(e).contains_key(e[j].0));
        }
        if map_of_pairs(e).contains_key(k) {
            let j = choose|j: int| 0 <= j < e.len() && #[trigger] e[j].0 == k;
            assert(map_of_pairs(u).contains_key(u[j].0));
        }
        if k == kv.0 {
            assert(map_of_pairs(u).contains_key(u[i].0));
        }
    }
    assert forall|k: K| #[trigger] map_of_pairs(u).contains_key(k) implies map_of_pairs(u)[k]
        == map_of_pairs(e).insert(kv.0, kv.1)[k] by {
        let j = choose|j: int| 0 <= j < u.len() && #[trigger] u[j].0 == k;
        assert(map_of_pairs(u).contains_key(u[j].0));
        if j != i {
            assert(map_of_pairs(e).contains_key(e[j].0));
            assert(u[j] == e[j]);
        }
    }
    assert(map_of_pairs(u) =~= map_of_pairs(e).insert(kv.0, kv.1));
}

/// Appending a pair with a new key keeps keys distinct.
pub proof fn lemma_push_new_key<K, V>(e: Seq<(K, V)>, kv: (K, V))
    requires
        distinct_keys(e),
        !has_key(e, kv.0),
    ensures
        distinct_keys(e.push(kv)),
        map_of_pairs(e.push(kv)) == map_of_pairs(e).insert(kv.0, kv.1),
{
    let p = e.push(kv);
    assert(p.drop_last() =~= e);
    assert forall|a: int, b: int| 0 <= a < b < p.len() implies #[trigger] p[a].0
        != #[trigger] p[b].0 by {
        assert(p[a] == e[a]);
        if b < e.len() {
            assert(p[b] == e[b]);
        } else {
            assert(!(e[a].0 == kv.0));
        }
    }
}

} // verus!
