//! A keyed table held as a vector of entries, viewed as a finite map.
//!
//! Every storage map of the pallets is one of these tables. Keys are compared
//! through their views, so two keys with the same bytes name the same entry.
use vstd::prelude::*;

verus! {

/// A key of a [`Table`]: it can be compared and copied, both by view.
pub trait TableKey: View + Sized {
    /// Whether `self` and `other` have the same view.
    fn same_key(&self, other: &Self) -> (b: bool)
        ensures
            b == (self@ == other@),
    ;

    /// A copy of `self` with the same view.
    fn copy_key(&self) -> (c: Self)
        ensures
            c@ == self@,
    ;
}

impl TableKey for u32 {
    fn same_key(&self, other: &Self) -> (b: bool) {
        *self == *other
    }

    fn copy_key(&self) -> (c: Self) {
        *self
    }
}

impl TableKey for u64 {
    fn same_key(&self, other: &Self) -> (b: bool) {
        *self == *other
    }

    fn copy_key(&self) -> (c: Self) {
        *self
    }
}

/// Whether two byte slices hold the same bytes.
pub fn bytes_equal(a: &[u8], b: &[u8]) -> (r: bool)
    ensures
        r == (a@ == b@),
{
    if a.len() != b.len() {
        return false;
    }
    let mut i: usize = 0;
    while i < a.len()
        invariant
            a@.len() == b@.len(),
            i <= a@.len(),
            forall|j: int| 0 <= j < i ==> a@[j] == b@[j],
        decreases a@.len() - i,
    {
        if a[i] != b[i] {
            return false;
        }
        i = i + 1;
    }
    assert(a@ =~= b@);
    true
}

impl TableKey for Vec<u8> {
    fn same_key(&self, other: &Self) -> (b: bool) {
        bytes_equal(self.as_slice(), other.as_slice())
    }

    fn copy_key(&self) -> (c: Self) {
        let c = self.clone();
        assert(c@ =~= self@);
        c
    }
}

impl TableKey for [u8; 32] {
    fn same_key(&self, other: &Self) -> (b: bool) {
        bytes_equal(self.as_slice(), other.as_slice())
    }

    fn copy_key(&self) -> (c: Self) {
        *self
    }
}

/// The map that a sequence of entries denotes: later entries win.
pub open spec fn seq_to_map<K: View, V>(s: Seq<(K, V)>) -> Map<K::V, V>
    decreases s.len(),
{
    if s.len() == 0 {
        Map::empty()
    } else {
        seq_to_map(s.drop_last()).insert(s.last().0@, s.last().1)
    }
}

/// No two entries of `s` have keys with the same view.
pub open spec fn distinct_keys<K: View, V>(s: Seq<(K, V)>) -> bool {
    forall|i: int, j: int|
        0 <= i < s.len() && 0 <= j < s.len() && i != j ==> s[i].0@ != s[j].0@
}

proof fn lemma_distinct_prefix<K: View, V>(s: Seq<(K, V)>, m: int)
    requires
        distinct_keys(s),
        0 <= m <= s.len(),
    ensures
        distinct_keys(s.take(m)),
{
    let t = s.take(m);
    assert forall|i: int, j: int|
        0 <= i < t.len() && 0 <= j < t.len() && i != j implies t[i].0@ != t[j].0@ by {
        assert(t[i] == s[i]);
        assert(t[j] == s[j]);
    }
}

proof fn lemma_seq_to_map_dom<K: View, V>(s: Seq<(K, V)>, k: K::V)
    ensures
        seq_to_map(s).dom().contains(k) <==> exists|i: int| 0 <= i < s.len() && s[i].0@ == k,
    decreases s.len(),
{
    if s.len() > 0 {
        let t = s.drop_last();
        lemma_seq_to_map_dom(t, k);
        if seq_to_map(s).dom().contains(k) {
            if s.last().0@ == k {
                assert(s[s.len() - 1].0@ == k);
            } else {
                let i = choose|i: int| 0 <= i < t.len() && t[i].0@ == k;
                assert(s[i] == t[i]);
            }
        }
        if exists|i: int| 0 <= i < s.len() && s[i].0@ == k {
            let i = choose|i: int| 0 <= i < s.len() && s[i].0@ == k;
            if i < s.len() - 1 {
                assert(t[i] == s[i]);
            }
        }
    }
}

proof fn lemma_seq_to_map_value<K: View, V>(s: Seq<(K, V)>, i: int)
    requires
        distinct_keys(s),
        0 <= i < s.len(),
    ensures
        seq_to_map(s).dom().contains(s[i].0@),
        seq_to_map(s)[s[i].0@] == s[i].1,
    decreases s.len(),
{
    if i < s.len() - 1 {
        let t = s.drop_last();
        lemma_distinct_prefix(s, s.len() - 1);
        assert(t =~= s.take(s.len() - 1));
        assert(t[i] == s[i]);
        lemma_seq_to_map_value(t, i);
        assert(s[i].0@ != s[s.len() - 1].0@);
    }
}

proof fn lemma_seq_to_map_len<K: View, V>(s: Seq<(K, V)>)
    requires
        distinct_keys(s),
    ensures
        seq_to_map(s).dom().finite(),
        seq_to_map(s).dom().len() == s.len(),
    decreases s.len(),
{
    if s.len() > 0 {
        let t = s.drop_last();
        lemma_distinct_prefix(s, s.len() - 1);
        assert(t =~= s.take(s.len() - 1));
        lemma_seq_to_map_len(t);
        lemma_seq_to_map_dom(t, s.last().0@);
        if seq_to_map(t).dom().contains(s.last().0@) {
            let i = choose|i: int| 0 <= i < t.len() && t[i].0@ == s.last().0@;
            assert(s[i] == t[i]);
            assert(false);
        }
    }
}

proof fn lemma_seq_to_map_agree<K: View, V>(s: Seq<(K, V)>, r: Seq<(K, V)>, k: K::V)
    requires
        distinct_keys(s),
        distinct_keys(r),
        seq_to_map(r).dom().contains(k),
        forall|j: int| #![trigger r[j]] 0 <= j < r.len() ==> exists|i: int| #![trigger s[i]] 0 <= i < s.len() && s[i] == r[j],
    ensures
        seq_to_map(s).dom().contains(k),
        seq_to_map(s)[k] == seq_to_map(r)[k],
{
    lemma_seq_to_map_dom(r, k);
    let j = choose|j: int| 0 <= j < r.len() && r[j].0@ == k;
    lemma_seq_to_map_value(r, j);
    let i = choose|i: int| 0 <= i < s.len() && s[i] == r[j];
    lemma_seq_to_map_value(s, i);
}

proof fn lemma_seq_to_map_remove<K: View, V>(s: Seq<(K, V)>, i: int)
    requires
        distinct_keys(s),
        0 <= i < s.len(),
    ensures
        distinct_keys(s.remove(i)),
        seq_to_map(s.remove(i)) =~= seq_to_map(s).remove(s[i].0@),
{
    let r = s.remove(i);
    let k0 = s[i].0@;
    assert forall|a: int, b: int|
        0 <= a < r.len() && 0 <= b < r.len() && a != b implies r[a].0@ != r[b].0@ by {
        let a2 = if a < i { a } else { a + 1 };
        let b2 = if b < i { b } else { b + 1 };
        assert(r[a] == s[a2]);
        assert(r[b] == s[b2]);
    }
    assert forall|k: K::V|
        #![trigger seq_to_map(r).dom().contains(k)]
        seq_to_map(r).dom().contains(k) == seq_to_map(s).remove(k0).dom().contains(k) by {
        lemma_seq_to_map_dom(r, k);
        lemma_seq_to_map_dom(s, k);
        if exists|j: int| 0 <= j < r.len() && r[j].0@ == k {
            let j = choose|j: int| 0 <= j < r.len() && r[j].0@ == k;
            let j2 = if j < i { j } else { j + 1 };
            assert(r[j] == s[j2]);
            assert(j2 != i);
        }
        if k != k0 && exists|j: int| 0 <= j < s.len() && s[j].0@ == k {
            let j = choose|j: int| 0 <= j < s.len() && s[j].0@ == k;
            assert(j != i);
            let j2 = if j < i { j } else { j - 1 };
            assert(r[j2] == s[j]);
        }
    }
    assert forall|k: K::V| #[trigger] seq_to_map(r).dom().contains(k) implies seq_to_map(r)[k]
        == seq_to_map(s)[k] by {
        assert forall|j: int| #![trigger r[j]] 0 <= j < r.len() implies exists|x: int|
            #![trigger s[x]] 0 <= x < s.len() && s[x] == r[j] by {
            let j2 = if j < i { j } else { j + 1 };
            assert(s[j2] == r[j]);
        }
        lemma_seq_to_map_agree(s, r, k);
    }
}

proof fn lemma_seq_to_map_take<K: View, V>(s: Seq<(K, V)>, m: int)
    requires
        distinct_keys(s),
        0 <= m <= s.len(),
    ensures
        distinct_keys(s.take(m)),
        seq_to_map(s.take(m)).submap_of(seq_to_map(s)),
        seq_to_map(s.take(m)).dom().finite(),
        seq_to_map(s.take(m)).dom().len() == m,
{
    let t = s.take(m);
    lemma_distinct_prefix(s, m);
    lemma_seq_to_map_len(t);
    assert forall|k: K::V| #[trigger] seq_to_map(t).dom().contains(k) implies seq_to_map(
        s,
    ).dom().contains(k) && seq_to_map(t)[k] == seq_to_map(s)[k] by {
        assert forall|j: int| #![trigger t[j]] 0 <= j < t.len() implies exists|x: int|
            #![trigger s[x]] 0 <= x < s.len() && s[x] == t[j] by {
            assert(s[j] == t[j]);
        }
        lemma_seq_to_map_agree(s, t, k);
    }
}

/// A finite map from keys to values, held as a vector of entries with distinct keys.
pub struct Table<K, V> {
    entries: Vec<(K, V)>,
}

impl<K: TableKey, V> Table<K, V> {
    /// The finite map this table holds.
    pub closed spec fn map(&self) -> Map<K::V, V> {
        seq_to_map(self.entries@)
    }

    /// The table's internal invariant: no key occurs twice.
    pub closed spec fn wf(&self) -> bool {
        distinct_keys(self.entries@)
    }

    /// The empty table.
    pub fn new() -> (t: Self)
        ensures
            t.wf(),
            t.map() == Map::<K::V, V>::empty(),
    {
        let t = Table { entries: Vec::new() };
        assert(t.map() =~= Map::<K::V, V>::empty());
        t
    }

    /// The number of entries, which is the size of the map's domain.
    pub fn len(&self) -> (n: usize)
        requires
            self.wf(),
        ensures
            self.map().dom().finite(),
            n == self.map().dom().len(),
    {
        proof {
            lemma_seq_to_map_len(self.entries@);
        }
        self.entries.len()
    }

    fn find(&self, k: &K) -> (r: Option<usize>)
        requires
            self.wf(),
        ensures
            match r {
                Some(i) => i < self.entries@.len() && self.entries@[i as int].0@ == k@,
                None => !self.map().dom().contains(k@),
            },
    {
        let mut i: usize = 0;
        while i < self.entries.len()
            invariant
                i <= self.entries@.len(),
                forall|j: int| 0 <= j < i ==> self.entries@[j].0@ != k@,
            decreases self.entries@.len() - i,
        {
            if self.entries[i].0.same_key(k) {
                return Some(i);
            }
            i = i + 1;
        }
        proof {
            lemma_seq_to_map_dom(self.entries@, k@);
        }
        None
    }

    /// Whether the table holds an entry for `k`.
    pub fn contains_key(&self, k: &K) -> (b: bool)
        requires
            self.wf(),
        ensures
            b == self.map().dom().contains(k@),
    {
        match self.find(k) {
            Some(i) => {
                proof {
                    lemma_seq_to_map_value(self.entries@, i as int);
                }
                true
            },
            None => false,
        }
    }

    /// The value stored for `k`, if any.
    pub fn get(&self, k: &K) -> (r: Option<&V>)
        requires
            self.wf(),
        ensures
            r.is_some() == self.map().dom().contains(k@),
            r.is_some() ==> *r.unwrap() == self.map()[k@],
    {
        match self.find(k) {
            Some(i) => {
                proof {
                    lemma_seq_to_map_value(self.entries@, i as int);
                }
                Some(&self.entries[i].1)
            },
            None => None,
        }
    }

    /// Removes the entry for `k` and returns its value, if there was one.
    pub fn remove(&mut self, k: &K) -> (r: Option<V>)
        requires
            old(self).wf(),
        ensures
            final(self).wf(),
            final(self).map() == old(self).map().remove(k@),
            r.is_some() == old(self).map().dom().contains(k@),
            r.is_some() ==> r.unwrap() == old(self).map()[k@],
    {
        match self.find(k) {
            Some(i) => {
                proof {
                    lemma_seq_to_map_value(self.entries@, i as int);
                    lemma_seq_to_map_remove(self.entries@, i as int);
                }
                let (_, v) = self.entries.remove(i);
                Some(v)
            },
            None => {
                proof {
                    assert(self.map().remove(k@) =~= self.map());
                }
                None
            },
        }
    }

    /// Sets the value for `k`, replacing any earlier value.
    pub fn insert(&mut self, k: K, v: V)
        requires
            old(self).wf(),
        ensures
            final(self).wf(),
            final(self).map() == old(self).map().insert(k@, v),
    {
        let _ = self.remove(&k);
        proof {
            lemma_seq_to_map_dom(self.entries@, k@);
            assert forall|i: int, j: int|
                0 <= i < self.entries@.push((k, v)).len() && 0 <= j < self.entries@.push(
                    (k, v),
                ).len() && i != j implies self.entries@.push((k, v))[i].0@ != self.entries@.push(
                (k, v),
            )[j].0@ by {
                let s = self.entries@.push((k, v));
                if i == self.entries@.len() as int {
                    assert(s[j] == self.entries@[j]);
                } else if j == self.entries@.len() as int {
                    assert(s[i] == self.entries@[i]);
                } else {
                    assert(s[i] == self.entries@[i]);
                    assert(s[j] == self.entries@[j]);
                }
            }
        }
        let ghost before = self.entries@;
        let ghost removed_map = self.map();
        self.entries.push((k, v));
        proof {
            assert(self.entries@.drop_last() =~= before);
            assert(self.map() == removed_map.insert(k@, v));
            assert(self.map() =~= old(self).map().insert(k@, v));
        }
    }

    /// Removes every entry.
    pub fn clear(&mut self)
        ensures
            final(self).wf(),
            final(self).map() == Map::<K::V, V>::empty(),
    {
        *self = Table::new();
    }

    /// Removes up to `limit` entries and returns how many were removed.
    ///
    /// What stays is part of what was there before.
    pub fn remove_up_to(&mut self, limit: u32) -> (removed: u32)
        requires
            old(self).wf(),
        ensures
            final(self).wf(),
            old(self).map().dom().finite(),
            final(self).map().submap_of(old(self).map()),
            removed == if old(self).map().dom().len() < limit {
                old(self).map().dom().len() as int
            } else {
                limit as int
            },
            final(self).map().dom().len() == old(self).map().dom().len() - removed,
    {
        proof {
            lemma_seq_to_map_len(self.entries@);
        }
        let n = self.entries.len();
        let removed: u32 = if (n as u64) < (limit as u64) {
            n as u32
        } else {
            limit
        };
        let keep = n - removed as usize;
        proof {
            lemma_seq_to_map_take(self.entries@, keep as int);
        }
        self.entries.truncate(keep);
        proof {
            assert(self.entries@ =~= old(self).entries@.take(keep as int));
        }
        removed
    }
}

} // verus!
