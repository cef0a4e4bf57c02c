//! Small tables kept as a vector of entries, in the order the entries were added: for keys that are
//! more than a number, and where the order of the entries shows.
//!
//! A table holds each key at most once ([`distinct`]). Under that invariant its
//! contents are a finite map, read through [`lookup`].

use vstd::prelude::*;

verus! {

/// Whether some entry has the key `k`.
pub open spec fn has_key<K, V>(s: Seq<(K, V)>, k: K) -> bool {
    exists|i: int| 0 <= i < s.len() && #[trigger] s[i].0 == k
}

/// Whether some entry has the value `v`.
pub open spec fn has_value<K, V>(s: Seq<(K, V)>, v: V) -> bool {
    exists|i: int| 0 <= i < s.len() && #[trigger] s[i].1 == v
}

/// No key occurs twice.
pub open spec fn distinct<K, V>(s: Seq<(K, V)>) -> bool {
    forall|i: int, j: int|
        0 <= i < s.len() && 0 <= j < s.len() && #[trigger] s[i].0 == #[trigger] s[j].0 ==> i == j
}

/// The position of the entry with the key `k`, where there is one.
pub open spec fn position<K, V>(s: Seq<(K, V)>, k: K) -> int {
    choose|i: int| 0 <= i < s.len() && #[trigger] s[i].0 == k
}

/// The value stored under `k`.
pub open spec fn lookup<K, V>(s: Seq<(K, V)>, k: K) -> Option<V> {
    if has_key(s, k) {
        Some(s[position(s, k)].1)
    } else {
        None
    }
}

/// The table in which `k` has the value `v`: in place where it had one, at the end otherwise.
pub open spec fn put<K, V>(s: Seq<(K, V)>, k: K, v: V) -> Seq<(K, V)> {
    if has_key(s, k) {
        s.update(position(s, k), (k, v))
    } else {
        s.push((k, v))
    }
}

/// What `position` finds is the only place where the key stands.
pub proof fn lemma_position<K, V>(s: Seq<(K, V)>, i: int)
    requires
        distinct(s),
        0 <= i < s.len(),
    ensures
        position(s, s[i].0) == i,
        lookup(s, s[i].0) == Some(s[i].1),
{
    let k = s[i].0;
    assert(s[i].0 == k);
    let p = position(s, k);
    assert(0 <= p < s.len() && s[p].0 == k);
}

/// A key that is looked up with success stands in the table.
pub proof fn lemma_found<K, V>(s: Seq<(K, V)>, k: K)
    requires
        has_key(s, k),
    ensures
        0 <= position(s, k) < s.len(),
        s[position(s, k)].0 == k,
        lookup(s, k) == Some(s[position(s, k)].1),
{
}

/// `put` keeps keys distinct, stores the value, and touches no other key.
pub proof fn lemma_put<K, V>(s: Seq<(K, V)>, k: K, v: V)
    requires
        distinct(s),
    ensures
        distinct(put(s, k, v)),
        lookup(put(s, k, v), k) == Some(v),
        forall|other: K| other != k ==> #[trigger] lookup(put(s, k, v), other) == lookup(s, other),
        forall|other: K| #[trigger]
            has_key(put(s, k, v), other) <==> other == k || has_key(s, other),
{
    let t = put(s, k, v);
    if has_key(s, k) {
        lemma_found(s, k);
        let p = position(s, k);
        assert forall|i: int| 0 <= i < s.len() implies #[trigger] t[i].0 == s[i].0 by {}
        assert(distinct(t));
        lemma_position(t, p);
        assert forall|other: K| #[trigger] has_key(t, other) <==> other == k || has_key(
            s,
            other,
        ) by {
            if has_key(t, other) {
                lemma_found(t, other);
                assert(s[position(t, other)].0 == other);
            }
            if has_key(s, other) {
                lemma_found(s, other);
                assert(t[position(s, other)].0 == other);
            }
        }
        assert forall|other: K| other != k implies #[trigger] lookup(t, other) == lookup(
            s,
            other,
        ) by {
            if has_key(s, other) {
                lemma_found(s, other);
                let q = position(s, other);
                assert(t[q] == s[q]);
                lemma_position(t, q);
            } else {
                assert(!has_key(t, other));
            }
        }
    } else {
        assert forall|i: int| 0 <= i < s.len() implies #[trigger] t[i] == s[i] by {}
        assert(t[s.len() as int] == (k, v));
        assert forall|i: int| 0 <= i < s.len() implies #[trigger] s[i].0 != k by {}
        assert(distinct(t));
        lemma_position(t, s.len() as int);
        assert forall|other: K| #[trigger] has_key(t, other) <==> other == k || has_key(
            s,
            other,
        ) by {
            if has_key(t, other) {
                lemma_found(t, other);
                let q = position(t, other);
                if q < s.len() {
                    assert(s[q].0 == other);
                }
            }
            if has_key(s, other) {
                lemma_found(s, other);
                assert(t[position(s, other)].0 == other);
            }
            if other == k {
                assert(t[s.len() as int].0 == k);
            }
        }
        assert forall|other: K| other != k implies #[trigger] lookup(t, other) == lookup(
            s,
            other,
        ) by {
            if has_key(s, other) {
                lemma_found(s, other);
                let q = position(s, other);
                assert(t[q] == s[q]);
                lemma_position(t, q);
            } else {
                assert(!has_key(t, other));
            }
        }
    }
}

/// Filtering by key keeps keys distinct, and keeps exactly the entries whose key passes.
pub proof fn lemma_filter_keys<K, V>(s: Seq<(K, V)>, keep: spec_fn((K, V)) -> bool)
    requires
        distinct(s),
    ensures
        distinct(s.filter(keep)),
        forall|k: K| #[trigger]
            has_key(s.filter(keep), k) <==> has_key(s, k) && keep((k, lookup(s, k)->0)),
        forall|k: K|
            has_key(s.filter(keep), k) ==> #[trigger] lookup(s.filter(keep), k) == lookup(s, k),
        forall|e: (K, V)| s.filter(keep).contains(e) <==> #[trigger] s.contains(e) && keep(e),
    decreases s.len(),
{
    reveal(Seq::filter);
    let t = s.filter(keep);
    if s.len() == 0 {
        assert forall|k: K| !#[trigger] has_key(t, k) by {}
        assert forall|e: (K, V)| t.contains(e) <==> #[trigger] s.contains(e) && keep(e) by {}
    } else {
        let init = s.drop_last();
        let last = s.last();
        assert forall|i: int, j: int|
            0 <= i < init.len() && 0 <= j < init.len() && #[trigger] init[i].0
                == #[trigger] init[j].0 implies i == j by {
            assert(s[i] == init[i] && s[j] == init[j]);
        }
        lemma_filter_keys(init, keep);
        let u = init.filter(keep);
        assert(!has_key(init, last.0)) by {
            if has_key(init, last.0) {
                lemma_found(init, last.0);
                let q = position(init, last.0);
                assert(s[q] == init[q]);
                assert(s[q].0 == s[s.len() - 1].0);
            }
        }
        assert(!has_key(u, last.0));
        assert(s[s.len() - 1] == last);
        assert forall|k: K| #[trigger] has_key(s, k) <==> has_key(init, k) || k == last.0 by {
            if has_key(s, k) {
                lemma_found(s, k);
                let q = position(s, k);
                if q < init.len() {
                    assert(init[q].0 == k);
                }
            }
            if has_key(init, k) {
                lemma_found(init, k);
                assert(s[position(init, k)].0 == k);
            }
            if k == last.0 {
                assert(s[s.len() - 1].0 == k);
            }
        }
        assert forall|k: K| has_key(init, k) implies #[trigger] lookup(s, k) == lookup(init, k) by {
            lemma_found(init, k);
            let q = position(init, k);
            assert(s[q] == init[q]);
            lemma_position(s, q);
        }
        lemma_position(s, s.len() - 1);
        if keep(last) {
            assert(t == u.push(last));
            assert forall|i: int| 0 <= i < u.len() implies #[trigger] t[i] == u[i] by {}
            assert(t[u.len() as int] == last);
            assert forall|i: int| 0 <= i < u.len() implies #[trigger] u[i].0 != last.0 by {
                if u[i].0 == last.0 {
                    assert(has_key(u, last.0));
                }
            }
            assert(distinct(t));
            lemma_position(t, u.len() as int);
            assert forall|k: K| #[trigger] has_key(t, k) <==> has_key(u, k) || k == last.0 by {
                if has_key(t, k) {
                    lemma_found(t, k);
                    let q = position(t, k);
                    if q < u.len() {
                        assert(u[q].0 == k);
                    }
                }
                if has_key(u, k) {
                    lemma_found(u, k);
                    assert(t[position(u, k)].0 == k);
                }
                if k == last.0 {
                    assert(t[u.len() as int].0 == k);
                }
            }
            assert forall|k: K| has_key(t, k) implies #[trigger] lookup(t, k) == lookup(s, k) by {
                if k != last.0 {
                    lemma_found(u, k);
                    let q = position(u, k);
                    assert(t[q] == u[q]);
                    lemma_position(t, q);
                }
            }
        } else {
            assert(t == u);
        }
        assert forall|k: K| #[trigger] has_key(t, k) <==> has_key(s, k) && keep(
            (k, lookup(s, k)->0),
        ) by {
            if k == last.0 {
                assert(lookup(s, k) == Some(last.1));
            } else if has_key(s, k) {
                assert(has_key(init, k));
                assert(lookup(s, k) == lookup(init, k));
            }
        }
        assert forall|k: K| has_key(t, k) implies #[trigger] lookup(t, k) == lookup(s, k) by {
            if k != last.0 {
                assert(has_key(u, k));
                assert(lookup(u, k) == lookup(init, k));
                assert(has_key(init, k));
            }
        }
        assert forall|e: (K, V)| t.contains(e) <==> #[trigger] s.contains(e) && keep(e) by {
            assert(s.contains(e) <==> init.contains(e) || e == last) by {
                if s.contains(e) {
                    let q = choose|q: int| 0 <= q < s.len() && s[q] == e;
                    if q < init.len() {
                        assert(init[q] == e);
                    }
                }
                if init.contains(e) {
                    let q = choose|q: int| 0 <= q < init.len() && init[q] == e;
                    assert(s[q] == e);
                }
            }
            if keep(last) {
                assert(t.contains(e) <==> u.contains(e) || e == last) by {
                    if t.contains(e) {
                        let q = choose|q: int| 0 <= q < t.len() && t[q] == e;
                        if q < u.len() {
                            assert(u[q] == e);
                        }
                    }
                    if u.contains(e) {
                        let q = choose|q: int| 0 <= q < u.len() && u[q] == e;
                        assert(t[q] == e);
                    }
                    if e == last {
                        assert(t[u.len() as int] == e);
                    }
                }
            }
        }
    }
}

} // verus!
