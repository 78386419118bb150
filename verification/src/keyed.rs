//! Records held in insertion order and found by identifier: the map that a
//! sequence of identifiers and a sequence of values stand for, and how
//! appending and removing change it.

use vstd::prelude::*;

verus! {

/// The map from each identifier in `ids` to the value at its position.
/// Meaningful where no identifier occurs twice.
pub open spec fn keyed_map<V>(ids: Seq<u128>, vals: Seq<V>) -> Map<u128, V> {
    Map::new(|id: u128| ids.contains(id), |id: u128| vals[ids.index_of(id)])
}

/// The identifier at a position maps to the value at that position.
pub proof fn lemma_keyed_lookup<V>(ids: Seq<u128>, vals: Seq<V>, i: int)
    requires
        ids.no_duplicates(),
        ids.len() == vals.len(),
        0 <= i < ids.len(),
    ensures
        keyed_map(ids, vals).dom().contains(ids[i]),
        keyed_map(ids, vals)[ids[i]] == vals[i],
{
    assert(ids.contains(ids[i]));
    let j = ids.index_of(ids[i]);
    assert(0 <= j < ids.len() && ids[j] == ids[i]);
    assert(j == i);
}

/// Every identifier of the map sits at some position, with its value.
pub proof fn lemma_keyed_position<V>(ids: Seq<u128>, vals: Seq<V>, id: u128) -> (i: int)
    requires
        ids.no_duplicates(),
        ids.len() == vals.len(),
        keyed_map(ids, vals).dom().contains(id),
    ensures
        0 <= i < ids.len(),
        ids[i] == id,
        keyed_map(ids, vals)[id] == vals[i],
{
    let i = ids.index_of(id);
    assert(ids.contains(id));
    i
}

/// Appending a new identifier inserts it into the map.
pub proof fn lemma_keyed_push<V>(ids: Seq<u128>, vals: Seq<V>, id: u128, v: V)
    requires
        ids.no_duplicates(),
        ids.len() == vals.len(),
        !ids.contains(id),
    ensures
        ids.push(id).no_duplicates(),
        keyed_map(ids.push(id), vals.push(v)) == keyed_map(ids, vals).insert(id, v),
{
    let ids2 = ids.push(id);
    let vals2 = vals.push(v);
    assert forall|i: int, j: int| 0 <= i < ids2.len() && 0 <= j < ids2.len() && i != j implies ids2[i]
        != ids2[j] by {
        if i < ids.len() {
            assert(ids.contains(ids[i]));
        }
        if j < ids.len() {
            assert(ids.contains(ids[j]));
        }
    }
    assert forall|k: u128| #[trigger]
        keyed_map(ids2, vals2).dom().contains(k) <==> keyed_map(ids, vals).insert(
            id,
            v,
        ).dom().contains(k) by {
        if ids2.contains(k) {
            let p = choose|p: int| 0 <= p < ids2.len() && ids2[p] == k;
            if p < ids.len() {
                assert(ids[p] == k);
            }
        }
        if ids.contains(k) {
            let p = choose|p: int| 0 <= p < ids.len() && ids[p] == k;
            assert(ids2[p] == k);
        }
        if k == id {
            assert(ids2[ids.len() as int] == k);
        }
    }
    assert forall|k: u128| #[trigger] keyed_map(ids2, vals2).dom().contains(k) implies keyed_map(
        ids2,
        vals2,
    )[k] == keyed_map(ids, vals).insert(id, v)[k] by {
        let p = lemma_keyed_position(ids2, vals2, k);
        if p < ids.len() {
            assert(ids[p] == k);
            lemma_keyed_lookup(ids, vals, p);
        }
    }
    assert(keyed_map(ids2, vals2) =~= keyed_map(ids, vals).insert(id, v));
}

/// Removing a position removes its identifier from the map.
pub proof fn lemma_keyed_remove<V>(ids: Seq<u128>, vals: Seq<V>, i: int)
    requires
        ids.no_duplicates(),
        ids.len() == vals.len(),
        0 <= i < ids.len(),
    ensures
        ids.remove(i).no_duplicates(),
        keyed_map(ids.remove(i), vals.remove(i)) == keyed_map(ids, vals).remove(ids[i]),
{
    let ids2 = ids.remove(i);
    let vals2 = vals.remove(i);
    assert forall|a: int, b: int| 0 <= a < ids2.len() && 0 <= b < ids2.len() && a != b implies ids2[a]
        != ids2[b] by {
        let a0 = if a < i { a } else { a + 1 };
        let b0 = if b < i { b } else { b + 1 };
        assert(ids2[a] == ids[a0] && ids2[b] == ids[b0]);
    }
    assert forall|k: u128| #[trigger]
        keyed_map(ids2, vals2).dom().contains(k) <==> keyed_map(ids, vals).remove(
            ids[i],
        ).dom().contains(k) by {
        if ids2.contains(k) {
            let p = choose|p: int| 0 <= p < ids2.len() && ids2[p] == k;
            let source = if p < i { p } else { p + 1 };
            assert(ids[source] == k);
        }
        if ids.contains(k) && k != ids[i] {
            let p = choose|p: int| 0 <= p < ids.len() && ids[p] == k;
            let shifted = if p < i { p } else { p - 1 };
            assert(ids2[shifted] == k);
        }
    }
    assert forall|k: u128| #[trigger] keyed_map(ids2, vals2).dom().contains(k) implies keyed_map(
        ids2,
        vals2,
    )[k] == keyed_map(ids, vals).remove(ids[i])[k] by {
        let p = lemma_keyed_position(ids2, vals2, k);
        let source = if p < i { p } else { p + 1 };
        assert(ids[source] == k);
        lemma_keyed_lookup(ids, vals, source);
    }
    assert(keyed_map(ids2, vals2) =~= keyed_map(ids, vals).remove(ids[i]));
}

/// What a sequence holds once a value has been appended to it.
pub proof fn lemma_push_contains<A>(s: Seq<A>, x: A)
    ensures
        forall|a: A| #[trigger] s.push(x).contains(a) <==> s.contains(a) || a == x,
{
    assert forall|a: A| #[trigger] s.push(x).contains(a) <==> s.contains(a) || a == x by {
        if s.push(x).contains(a) {
            let p = choose|p: int| 0 <= p < s.push(x).len() && s.push(x)[p] == a;
            if p < s.len() {
                assert(s[p] == a);
            }
        }
        if s.contains(a) {
            let p = choose|p: int| 0 <= p < s.len() && s[p] == a;
            assert(s.push(x)[p] == a);
        }
        if a == x {
            assert(s.push(x)[s.len() as int] == a);
        }
    }
}

/// Appending a value that a sequence lacks keeps it free of duplicates.
pub proof fn lemma_push_no_duplicates<A>(s: Seq<A>, x: A)
    requires
        s.no_duplicates(),
        !s.contains(x),
    ensures
        s.push(x).no_duplicates(),
{
    let t = s.push(x);
    assert forall|i: int, j: int| 0 <= i < t.len() && 0 <= j < t.len() && i != j implies t[i]
        != t[j] by {
        if i < s.len() {
            assert(s.contains(s[i]));
        }
        if j < s.len() {
            assert(s.contains(s[j]));
        }
    }
}

/// The map has as many entries as there are positions.
pub proof fn lemma_keyed_len<V>(ids: Seq<u128>, vals: Seq<V>)
    requires
        ids.no_duplicates(),
    ensures
        keyed_map(ids, vals).dom().finite(),
        keyed_map(ids, vals).dom().len() == ids.len(),
{
    vstd::seq_lib::seq_to_set_is_finite(ids);
    ids.unique_seq_to_set();
    assert(keyed_map(ids, vals).dom() =~= ids.to_set());
}

} // verus!
