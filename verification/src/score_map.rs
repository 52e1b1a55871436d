//! An index-keyed ordered mapping kept as a vector of entries with strictly
//! increasing keys.  It restores canonical frame order no matter in which
//! order results arrive, and it is the shape in which score and statistics
//! collections are persisted.

use vstd::prelude::*;

verus! {

/// Recursive lookup over an entry sequence; later entries win, which on a
/// strictly sorted sequence is the unique entry with the key.
pub open spec fn seq_lookup<V>(s: Seq<(u64, V)>, k: u64) -> Option<V>
    decreases s.len(),
{
    if s.len() == 0 {
        None
    } else if s.last().0 == k {
        Some(s.last().1)
    } else {
        seq_lookup(s.drop_last(), k)
    }
}

/// Keys of an entry sequence, in entry order.
pub open spec fn seq_keys<V>(s: Seq<(u64, V)>) -> Seq<u64> {
    s.map_values(|e: (u64, V)| e.0)
}

/// An ordered key-value collection with strictly increasing `u64` keys.
#[derive(Debug, Clone)]
pub struct SortedMap<V> {
    entries: Vec<(u64, V)>,
}

impl<V> SortedMap<V> {
    /// The entries, oldest key first.
    pub closed spec fn view(&self) -> Seq<(u64, V)> {
        self.entries@
    }

    /// Strictly increasing keys: sorted and duplicate-free.
    pub open spec fn wf(&self) -> bool {
        forall|i: int, j: int|
            0 <= i < j < self@.len() ==> (#[trigger] self@[i]).0 < (#[trigger] self@[j]).0
    }

    /// The value stored under `k`, if any.
    pub open spec fn spec_get(&self, k: u64) -> Option<V> {
        seq_lookup(self@, k)
    }

    pub fn new() -> (r: Self)
        ensures
            r@ =~= Seq::<(u64, V)>::empty(),
            r.wf(),
    {
        SortedMap { entries: Vec::new() }
    }

    pub fn len(&self) -> (n: usize)
        ensures
            n == self@.len(),
    {
        self.entries.len()
    }

    /// Entry at a position, in key order.
    pub fn entry_at(&self, i: usize) -> (e: &(u64, V))
        requires
            i < self@.len(),
        ensures
            *e == self@[i as int],
    {
        &self.entries[i]
    }

    /// Append an entry whose key is above every present key.
    pub fn push_max(&mut self, k: u64, v: V)
        requires
            old(self).wf(),
            old(self)@.len() > 0 ==> old(self)@.last().0 < k,
        ensures
            final(self).wf(),
            final(self)@ == old(self)@.push((k, v)),
    {
        proof {
            if self.entries@.len() > 0 {
                assert forall|i: int| 0 <= i < self.entries@.len() implies (
                #[trigger] self.entries@[i]).0 < k by {
                    if i < self.entries@.len() - 1 {
                        assert(self.entries@[i].0 < self.entries@[self.entries@.len() - 1].0);
                    }
                }
            }
        }
        self.entries.push((k, v));
    }

    /// Insert a value under `k`, replacing any previous value under `k`.
    pub fn insert(&mut self, k: u64, v: V)
        requires
            old(self).wf(),
        ensures
            final(self).wf(),
            final(self).spec_get(k) == Some(v),
            forall|k2: u64| k2 != k ==> final(self).spec_get(k2) == old(self).spec_get(k2),
            old(self).spec_get(k) is Some ==> final(self)@.len() == old(self)@.len(),
            old(self).spec_get(k) is None ==> final(self)@.len() == old(self)@.len() + 1,
            seq_keys(final(self)@).to_set() == seq_keys(old(self)@).to_set().insert(k),
            forall|i: int|
                0 <= i < final(self)@.len() ==> #[trigger] final(self)@[i] == (k, v) || old(
                    self,
                )@.contains(final(self)@[i]),
    {
        let ghost old_entries = self.entries@;
        let mut p: usize = 0;
        while p < self.entries.len() && self.entries[p].0 < k
            invariant
                0 <= p <= self.entries@.len(),
                forall|j: int| 0 <= j < p ==> (#[trigger] self.entries@[j]).0 < k,
                self.entries@ == old_entries,
            decreases self.entries@.len() - p,
        {
            p += 1;
        }
        if p < self.entries.len() && self.entries[p].0 == k {
            self.entries.remove(p);
            self.entries.insert(p, (k, v));
            proof {
                assert(self.entries@ =~= old_entries.update(p as int, (k, v)));
                lemma_lookup_update(old_entries, p as int, k, v);
                lemma_lookup_found(old_entries, p as int);
                assert(seq_keys(self.entries@) =~= seq_keys(old_entries));
                assert(seq_keys(old_entries)[p as int] == k);
                assert(seq_keys(old_entries).contains(k));
                assert(seq_keys(self.entries@).to_set() =~= seq_keys(old_entries).to_set().insert(
                    k,
                ));
                assert forall|i: int|
                    0 <= i < self.entries@.len() implies #[trigger] self.entries@[i] == (k, v)
                    || old_entries.contains(self.entries@[i]) by {
                    if i != p {
                        assert(old_entries[i] == self.entries@[i]);
                    }
                }
            }
        } else {
            proof {
                lemma_lookup_none_when_lt(old_entries, p as int, k);
            }
            self.entries.insert(p, (k, v));
            proof {
                lemma_lookup_insert(old_entries, p as int, k, v);
                assert(seq_keys(self.entries@) =~= seq_keys(old_entries).insert(p as int, k));
                lemma_keys_insert_to_set(seq_keys(old_entries), p as int, k);
                assert forall|i: int|
                    0 <= i < self.entries@.len() implies #[trigger] self.entries@[i] == (k, v)
                    || old_entries.contains(self.entries@[i]) by {
                    if i < p {
                        assert(old_entries[i] == self.entries@[i]);
                    } else if i > p {
                        assert(old_entries[i - 1] == self.entries@[i]);
                    }
                }
            }
        }
    }
}

/// After updating position `p` (whose key is `k`), looking `k` up yields the
/// new value and other keys are untouched, provided `k` appears only at `p`.
proof fn lemma_lookup_update<V>(s: Seq<(u64, V)>, p: int, k: u64, v: V)
    requires
        0 <= p < s.len(),
        s[p].0 == k,
        forall|i: int| 0 <= i < s.len() && i != p ==> (#[trigger] s[i]).0 != k,
    ensures
        seq_lookup(s.update(p, (k, v)), k) == Some(v),
        forall|k2: u64| k2 != k ==> seq_lookup(s.update(p, (k, v)), k2) == seq_lookup(s, k2),
    decreases s.len(),
{
    let t = s.update(p, (k, v));
    if p == s.len() - 1 {
        assert(t.last() == (k, v));
        assert(t.drop_last() =~= s.drop_last());
        assert forall|k2: u64| k2 != k implies seq_lookup(t, k2) == seq_lookup(s, k2) by {
            assert(s.last().0 == k);
            assert(seq_lookup(t, k2) == seq_lookup(t.drop_last(), k2));
        }
    } else {
        assert(t.last() == s.last());
        assert(t.drop_last() =~= s.drop_last().update(p, (k, v)));
        lemma_lookup_update(s.drop_last(), p, k, v);
        assert(s.last().0 != k);
        assert(seq_lookup(t, k) == seq_lookup(t.drop_last(), k));
        assert forall|k2: u64| k2 != k implies seq_lookup(t, k2) == seq_lookup(s, k2) by {
            if t.last().0 == k2 {
            } else {
                assert(seq_lookup(t, k2) == seq_lookup(t.drop_last(), k2));
                assert(seq_lookup(s, k2) == seq_lookup(s.drop_last(), k2));
            }
        }
    }
}

/// If every key before position `p` is below `k` and the keys are strictly
/// increasing with the entry at `p` (if any) above `k`, then `k` is absent.
proof fn lemma_lookup_none_when_lt<V>(s: Seq<(u64, V)>, p: int, k: u64)
    requires
        0 <= p <= s.len(),
        forall|j: int| 0 <= j < p ==> (#[trigger] s[j]).0 < k,
        forall|i: int, j: int| 0 <= i < j < s.len() ==> (#[trigger] s[i]).0 < (#[trigger] s[j]).0,
        p < s.len() ==> s[p].0 > k,
    ensures
        seq_lookup(s, k) is None,
    decreases s.len(),
{
    if s.len() > 0 {
        if p == s.len() {
            assert(s.last().0 < k);
        } else {
            assert(s.last().0 >= s[p].0);
        }
        lemma_lookup_none_when_lt(s.drop_last(), if p < s.len() { p } else { p - 1 }, k);
    }
}

/// Inserting a fresh entry at position `p` adds exactly that binding.
proof fn lemma_lookup_insert<V>(s: Seq<(u64, V)>, p: int, k: u64, v: V)
    requires
        0 <= p <= s.len(),
        forall|i: int| 0 <= i < s.len() ==> (#[trigger] s[i]).0 != k,
    ensures
        seq_lookup(s.insert(p, (k, v)), k) == Some(v),
        forall|k2: u64| k2 != k ==> seq_lookup(s.insert(p, (k, v)), k2) == seq_lookup(s, k2),
    decreases s.len(),
{
    let t = s.insert(p, (k, v));
    if p == s.len() {
        assert(t.last() == (k, v));
        assert(t.drop_last() =~= s);
        assert forall|k2: u64| k2 != k implies seq_lookup(t, k2) == seq_lookup(s, k2) by {
            assert(seq_lookup(t, k2) == seq_lookup(t.drop_last(), k2));
        }
    } else {
        assert(t.last() == s.last());
        assert(t.drop_last() =~= s.drop_last().insert(p, (k, v)));
        lemma_lookup_insert(s.drop_last(), p, k, v);
        assert(s.last().0 != k);
        assert(seq_lookup(t, k) == seq_lookup(t.drop_last(), k));
        assert forall|k2: u64| k2 != k implies seq_lookup(t, k2) == seq_lookup(s, k2) by {
            if t.last().0 == k2 {
            } else {
                assert(seq_lookup(t, k2) == seq_lookup(t.drop_last(), k2));
                assert(seq_lookup(s, k2) == seq_lookup(s.drop_last(), k2));
            }
        }
    }
}

/// A lookup at a position whose key occurs there gives a hit somewhere.
proof fn lemma_lookup_found<V>(s: Seq<(u64, V)>, p: int)
    requires
        0 <= p < s.len(),
    ensures
        seq_lookup(s, s[p].0) is Some,
    decreases s.len(),
{
    if s.last().0 != s[p].0 {
        lemma_lookup_found(s.drop_last(), p);
    }
}

/// Key sets grow by exactly the inserted key.
proof fn lemma_keys_insert_to_set(ks: Seq<u64>, p: int, k: u64)
    requires
        0 <= p <= ks.len(),
    ensures
        ks.insert(p, k).to_set() == ks.to_set().insert(k),
{
    let t = ks.insert(p, k);
    assert forall|x: u64| ks.to_set().insert(k).contains(x) implies t.to_set().contains(x) by {
        if x == k {
            assert(t[p] == k);
            assert(t.contains(k));
        } else {
            let i = choose|i: int| 0 <= i < ks.len() && ks[i] == x;
            if i < p {
                assert(t[i] == x);
            } else {
                assert(t[i + 1] == x);
            }
            assert(t.contains(x));
        }
    }
    assert forall|x: u64| t.to_set().contains(x) implies ks.to_set().insert(k).contains(x) by {
        let i = choose|i: int| 0 <= i < t.len() && t[i] == x;
        if i < p {
            assert(ks[i] == x);
            assert(ks.contains(x));
        } else if i == p {
        } else {
            assert(ks[i - 1] == x);
            assert(ks.contains(x));
        }
    }
    assert(t.to_set() =~= ks.to_set().insert(k));
}

} // verus!
