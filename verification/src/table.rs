//! An insertion-ordered table of records keyed by a 64-bit identifier, with
//! a `Map` view. Backs the intent, sub-intent, expectation and withdrawal
//! stores.

use vstd::prelude::*;

verus! {

/// A record with a 64-bit key.
pub trait Keyed: Sized {
    /// The key, in specifications.
    spec fn skey(&self) -> u64;

    /// The key.
    fn key(&self) -> (k: u64)
        ensures
            k == self.skey(),
    ;

    /// An equal copy of the record.
    fn dup(&self) -> (r: Self)
        ensures
            r == *self,
    ;
}

/// Records of a sequence, as a map from key to record.
pub open spec fn map_of<V: Keyed>(s: Seq<V>) -> Map<u64, V>
    decreases s.len(),
{
    if s.len() == 0 {
        Map::empty()
    } else {
        map_of(s.drop_last()).insert(s.last().skey(), s.last())
    }
}

/// Whether the keys of a sequence of records are pairwise distinct.
pub open spec fn distinct_keys<V: Keyed>(s: Seq<V>) -> bool {
    forall|i: int, j: int|
        0 <= i < j < s.len() ==> (#[trigger] s[i].skey()) != (#[trigger] s[j].skey())
}

/// A key is in the map exactly when some record carries it; under distinct
/// keys the map sends each record's key to that record.
pub proof fn lemma_map_of<V: Keyed>(s: Seq<V>)
    ensures
        forall|k: u64|
            #[trigger] map_of(s).contains_key(k) <==> exists|i: int|
                0 <= i < s.len() && (#[trigger] s[i].skey()) == k,
        distinct_keys(s) ==> forall|i: int|
            0 <= i < s.len() ==> map_of(s).contains_key(#[trigger] s[i].skey()) && map_of(
                s,
            )[s[i].skey()] == s[i],
    decreases s.len(),
{
    if s.len() > 0 {
        let t = s.drop_last();
        lemma_map_of(t);
        assert forall|k: u64| #[trigger] map_of(s).contains_key(k) implies exists|i: int|
            0 <= i < s.len() && (#[trigger] s[i].skey()) == k by {
            if k == s.last().skey() {
                assert(s[s.len() - 1].skey() == k);
            } else {
                assert(map_of(s) == map_of(t).insert(s.last().skey(), s.last()));
                assert(map_of(t).contains_key(k));
                let i = choose|i: int| 0 <= i < t.len() && (#[trigger] t[i].skey()) == k;
                assert(t[i] == s[i]);
                assert(s[i].skey() == k);
            }
        }
        assert forall|k: u64| (exists|i: int| 0 <= i < s.len() && (#[trigger] s[i].skey()) == k)
            implies map_of(s).contains_key(k) by {
            let i = choose|i: int| 0 <= i < s.len() && (#[trigger] s[i].skey()) == k;
            assert(map_of(s) == map_of(t).insert(s.last().skey(), s.last()));
            if i < s.len() - 1 {
                assert(t[i].skey() == k);
                assert(map_of(t).contains_key(k));
            } else {
                assert(s.last().skey() == k);
            }
        }
        if distinct_keys(s) {
            assert(distinct_keys(t));
            assert forall|i: int| 0 <= i < s.len() implies map_of(s).contains_key(
                #[trigger] s[i].skey(),
            ) && map_of(s)[s[i].skey()] == s[i] by {
                if i < s.len() - 1 {
                    assert(t[i] == s[i]);
                    assert(s[i].skey() != s.last().skey());
                }
            }
        }
    }
}

/// Replacing the record at one position replaces its key's entry in the map.
pub proof fn lemma_map_of_update<V: Keyed>(s: Seq<V>, i: int, x: V)
    requires
        distinct_keys(s),
        0 <= i < s.len(),
        x.skey() == s[i].skey(),
    ensures
        map_of(s.update(i, x)) == map_of(s).insert(x.skey(), x),
        distinct_keys(s.update(i, x)),
    decreases s.len(),
{
    let s2 = s.update(i, x);
    assert forall|a: int, b: int| 0 <= a < b < s2.len() implies (#[trigger] s2[a].skey())
        != (#[trigger] s2[b].skey()) by {
        assert(s[a].skey() != s[b].skey());
    }
    if i == s.len() - 1 {
        assert(s2.drop_last() =~= s.drop_last());
        assert(map_of(s2) =~= map_of(s).insert(x.skey(), x));
    } else {
        let t = s.drop_last();
        assert(distinct_keys(t));
        lemma_map_of_update(t, i, x);
        assert(s2.drop_last() =~= t.update(i, x));
        assert(s2.last() == s.last());
        assert(map_of(s2) == map_of(t).insert(x.skey(), x).insert(s.last().skey(), s.last()));
        assert(x.skey() != s.last().skey());
        assert(map_of(t).insert(x.skey(), x).insert(s.last().skey(), s.last()) =~= map_of(
            t,
        ).insert(s.last().skey(), s.last()).insert(x.skey(), x));
    }
}

/// Removing the record at one position removes its key from the map.
pub proof fn lemma_map_of_remove<V: Keyed>(s: Seq<V>, i: int)
    requires
        distinct_keys(s),
        0 <= i < s.len(),
    ensures
        map_of(s.remove(i)) == map_of(s).remove(s[i].skey()),
        distinct_keys(s.remove(i)),
    decreases s.len(),
{
    let s2 = s.remove(i);
    assert forall|a: int, b: int| 0 <= a < b < s2.len() implies (#[trigger] s2[a].skey())
        != (#[trigger] s2[b].skey()) by {
        let a0 = if a < i { a } else { a + 1 };
        let b0 = if b < i { b } else { b + 1 };
        assert(s2[a] == s[a0] && s2[b] == s[b0]);
        assert(s[a0].skey() != s[b0].skey());
    }
    if i == s.len() - 1 {
        assert(s2 =~= s.drop_last());
        lemma_map_of(s.drop_last());
        assert(!map_of(s.drop_last()).contains_key(s[i].skey()));
        assert(map_of(s2) =~= map_of(s).remove(s[i].skey()));
    } else {
        let t = s.drop_last();
        assert(distinct_keys(t));
        lemma_map_of_remove(t, i);
        assert(s2.drop_last() =~= t.remove(i));
        assert(s2.last() == s.last());
        assert(map_of(s2) == map_of(t).remove(t[i].skey()).insert(s.last().skey(), s.last()));
        assert(t[i].skey() == s[i].skey());
        assert(s[i].skey() != s.last().skey());
        assert(map_of(t).remove(s[i].skey()).insert(s.last().skey(), s.last()) =~= map_of(
            t,
        ).insert(s.last().skey(), s.last()).remove(s[i].skey()));
    }
}

/// An insertion-ordered store of records with distinct keys.
pub struct Table<V> {
    pub records: Vec<V>,
}

impl<V: Keyed> Table<V> {
    /// The records in insertion order.
    pub open spec fn seq(&self) -> Seq<V> {
        self.records@
    }

    /// The records as a map from key to record.
    pub open spec fn m(&self) -> Map<u64, V> {
        map_of(self.records@)
    }

    /// Well-formedness: keys are pairwise distinct.
    pub open spec fn wf(&self) -> bool {
        distinct_keys(self.records@)
    }

    /// An empty table.
    pub fn new() -> (r: Self)
        ensures
            r.wf(),
            r.m() == Map::<u64, V>::empty(),
            r.seq() == Seq::<V>::empty(),
    {
        Table { records: Vec::new() }
    }

    /// The number of records.
    pub fn len(&self) -> (n: usize)
        ensures
            n == self.seq().len(),
    {
        self.records.len()
    }

    /// The record at an insertion-order position.
    pub fn at(&self, i: usize) -> (r: &V)
        requires
            i < self.seq().len(),
        ensures
            *r == self.seq()[i as int],
    {
        &self.records[i]
    }

    /// Position of the record with a key, if any.
    fn find(&self, id: u64) -> (r: Option<usize>)
        ensures
            match r {
                Some(i) => i < self.records@.len() && self.records@[i as int].skey() == id,
                None => forall|j: int|
                    0 <= j < self.records@.len() ==> (#[trigger] self.records@[j].skey()) != id,
            },
    {
        let n = self.records.len();
        let mut i: usize = 0;
        while i < n
            invariant
                i <= n == self.records@.len(),
                forall|j: int| 0 <= j < i ==> (#[trigger] self.records@[j].skey()) != id,
            decreases n - i,
        {
            if self.records[i].key() == id {
                return Some(i);
            }
            i = i + 1;
        }
        None
    }

    /// The record with a key, if any.
    pub fn get(&self, id: u64) -> (r: Option<&V>)
        requires
            self.wf(),
        ensures
            match r {
                Some(v) => self.m().contains_key(id) && *v == self.m()[id],
                None => !self.m().contains_key(id),
            },
    {
        proof {
            lemma_map_of(self.records@);
        }
        match self.find(id) {
            Some(i) => Some(&self.records[i]),
            None => None,
        }
    }

    /// Whether a record with this key exists.
    pub fn contains(&self, id: u64) -> (r: bool)
        requires
            self.wf(),
        ensures
            r == self.m().contains_key(id),
    {
        self.get(id).is_some()
    }

    /// Adds a record under a fresh key.
    pub fn insert_new(&mut self, val: V)
        requires
            old(self).wf(),
            !old(self).m().contains_key(val.skey()),
        ensures
            final(self).wf(),
            final(self).m() == old(self).m().insert(val.skey(), val),
            final(self).seq() == old(self).seq().push(val),
    {
        proof {
            lemma_map_of(self.records@);
            assert(forall|j: int|
                0 <= j < self.records@.len() ==> (#[trigger] self.records@[j].skey())
                    != val.skey());
        }
        self.records.push(val);
        proof {
            assert(self.records@.drop_last() =~= old(self).records@);
        }
    }

    /// Replaces the record that carries the same key as `val`, in place.
    pub fn replace(&mut self, val: V)
        requires
            old(self).wf(),
            old(self).m().contains_key(val.skey()),
        ensures
            final(self).wf(),
            final(self).m() == old(self).m().insert(val.skey(), val),
            final(self).seq().len() == old(self).seq().len(),
            forall|j: int|
                0 <= j < old(self).seq().len() ==> (#[trigger] final(self).seq()[j]) == (
                if old(self).seq()[j].skey() == val.skey() {
                    val
                } else {
                    old(self).seq()[j]
                }),
    {
        proof {
            lemma_map_of(self.records@);
        }
        let id = val.key();
        match self.find(id) {
            Some(i) => {
                proof {
                    lemma_map_of_update(self.records@, i as int, val);
                }
                let slot = &mut self.records;
                slot.set(i, val);
            },
            None => {
                proof {
                    assert(false);
                }
            },
        }
    }

    /// Adds the record, replacing any record under the same key.
    pub fn upsert(&mut self, val: V)
        requires
            old(self).wf(),
        ensures
            final(self).wf(),
            final(self).m() == old(self).m().insert(val.skey(), val),
    {
        proof {
            lemma_map_of(self.records@);
        }
        if self.contains(val.key()) {
            self.replace(val);
        } else {
            self.insert_new(val);
            proof {
                assert(self.m() == old(self).m().insert(val.skey(), val));
            }
        }
    }

    /// Removes the record with a key; no change if the key is absent.
    pub fn remove(&mut self, id: u64)
        requires
            old(self).wf(),
        ensures
            final(self).wf(),
            final(self).m() == old(self).m().remove(id),
    {
        proof {
            lemma_map_of(self.records@);
        }
        match self.find(id) {
            Some(i) => {
                proof {
                    lemma_map_of_remove(self.records@, i as int);
                }
                self.records.remove(i);
            },
            None => {
                proof {
                    assert(!self.m().contains_key(id));
                    assert(self.m() =~= self.m().remove(id));
                }
            },
        }
    }

    /// An equal copy of the table.
    pub fn dup(&self) -> (r: Self)
        ensures
            r.seq() == self.seq(),
            r.m() == self.m(),
            r.wf() == self.wf(),
    {
        let n = self.records.len();
        let mut out: Vec<V> = Vec::new();
        let mut i: usize = 0;
        while i < n
            invariant
                i <= n == self.records@.len(),
                out@.len() == i,
                forall|j: int| 0 <= j < i ==> out@[j] == self.records@[j],
            decreases n - i,
        {
            out.push(self.records[i].dup());
            i = i + 1;
        }
        proof {
            assert(out@ =~= self.records@);
        }
        Table { records: out }
    }
}

} // verus!
