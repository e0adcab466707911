use vstd::prelude::*;
use vstd::map::*;
use vstd::assert_seqs_equal;

verus! {

/// A composite lookup key: a currency id and up to two account ids.
/// A slot a key does not use holds zero.
#[derive(Clone, Copy, PartialEq, Eq, Structural, Debug)]
pub struct Key {
    pub c: u32,
    pub a: u32,
    pub b: u32,
}

/// The map an entry sequence denotes: later entries override earlier ones,
/// though a well-formed table never holds a key twice.
pub open spec fn entry_map<T>(s: Seq<(Key, T)>) -> Map<Key, T>
    decreases s.len(),
{
    if s.len() == 0 {
        Map::empty()
    } else {
        entry_map(s.drop_last()).insert(s.last().0, s.last().1)
    }
}

/// No key occurs twice in the entry sequence.
pub open spec fn distinct_keys<T>(s: Seq<(Key, T)>) -> bool {
    forall|i: int, j: int| 0 <= i < j < s.len() ==> (#[trigger] s[i]).0 != (#[trigger] s[j]).0
}

proof fn lemma_entry_map_contains_at<T>(s: Seq<(Key, T)>, i: int)
    requires
        0 <= i < s.len(),
    ensures
        entry_map(s).contains_key(s[i].0),
    decreases s.len(),
{
    if i < s.len() - 1 {
        lemma_entry_map_contains_at(s.drop_last(), i);
    }
}

proof fn lemma_entry_map_absent<T>(s: Seq<(Key, T)>, k: Key)
    requires
        forall|i: int| 0 <= i < s.len() ==> (#[trigger] s[i]).0 != k,
    ensures
        !entry_map(s).contains_key(k),
    decreases s.len(),
{
    if s.len() > 0 {
        lemma_entry_map_absent(s.drop_last(), k);
    }
}

proof fn lemma_entry_map_value_at<T>(s: Seq<(Key, T)>, i: int)
    requires
        distinct_keys(s),
        0 <= i < s.len(),
    ensures
        entry_map(s).contains_key(s[i].0),
        entry_map(s)[s[i].0] == s[i].1,
    decreases s.len(),
{
    lemma_entry_map_contains_at(s, i);
    if i < s.len() - 1 {
        lemma_entry_map_value_at(s.drop_last(), i);
    }
}

proof fn lemma_entry_map_update<T>(s: Seq<(Key, T)>, i: int, v: T)
    requires
        distinct_keys(s),
        0 <= i < s.len(),
    ensures
        entry_map(s.update(i, (s[i].0, v))) == entry_map(s).insert(s[i].0, v),
        distinct_keys(s.update(i, (s[i].0, v))),
    decreases s.len(),
{
    let k = s[i].0;
    let t = s.update(i, (k, v));
    assert(forall|j: int| 0 <= j < s.len() ==> (#[trigger] t[j]).0 == s[j].0);
    if i == s.len() - 1 {
        assert_seqs_equal!(t.drop_last() == s.drop_last());
        assert_maps_equal!(
            entry_map(s.drop_last()).insert(k, s[i].1).insert(k, v),
            entry_map(s.drop_last()).insert(k, v)
        );
    } else {
        assert_seqs_equal!(t.drop_last() == s.drop_last().update(i, (k, v)));
        assert(s.drop_last()[i] == s[i]);
        lemma_entry_map_update(s.drop_last(), i, v);
        let last = s.last();
        assert(t.last() == last);
        assert(k != last.0);
        assert_maps_equal!(
            entry_map(s.drop_last()).insert(k, v).insert(last.0, last.1),
            entry_map(s.drop_last()).insert(last.0, last.1).insert(k, v)
        );
    }
}

proof fn lemma_entry_map_remove<T>(s: Seq<(Key, T)>, i: int)
    requires
        distinct_keys(s),
        0 <= i < s.len(),
    ensures
        entry_map(s.remove(i)) == entry_map(s).remove(s[i].0),
        distinct_keys(s.remove(i)),
    decreases s.len(),
{
    let k = s[i].0;
    let t = s.remove(i);
    assert(forall|j: int| 0 <= j < t.len() ==>
        (#[trigger] t[j]) == (if j < i { s[j] } else { s[j + 1] }));
    if i == s.len() - 1 {
        assert_seqs_equal!(t == s.drop_last());
        lemma_entry_map_absent(s.drop_last(), k);
        assert_maps_equal!(
            entry_map(s.drop_last()).insert(k, s[i].1).remove(k),
            entry_map(s.drop_last())
        );
    } else {
        assert_seqs_equal!(t.drop_last() == s.drop_last().remove(i));
        assert(s.drop_last()[i] == s[i]);
        lemma_entry_map_remove(s.drop_last(), i);
        let last = s.last();
        assert(t.last() == last);
        assert(k != last.0);
        assert_maps_equal!(
            entry_map(s.drop_last()).remove(k).insert(last.0, last.1),
            entry_map(s.drop_last()).insert(last.0, last.1).remove(k)
        );
    }
}

proof fn lemma_entry_map_domain<T>(s: Seq<(Key, T)>)
    ensures
        forall|k: Key| #[trigger] entry_map(s).contains_key(k)
            <==> exists|i: int| 0 <= i < s.len() && (#[trigger] s[i]).0 == k,
    decreases s.len(),
{
    if s.len() > 0 {
        lemma_entry_map_domain(s.drop_last());
        assert forall|k: Key| #[trigger] entry_map(s).contains_key(k)
            implies exists|i: int| 0 <= i < s.len() && (#[trigger] s[i]).0 == k by {
            if k == s.last().0 {
                assert(s[s.len() - 1].0 == k);
            } else {
                assert(entry_map(s.drop_last()).contains_key(k));
                let i = choose|i: int| 0 <= i < s.drop_last().len()
                    && (#[trigger] s.drop_last()[i]).0 == k;
                assert(s.drop_last()[i] == s[i]);
                assert(s[i].0 == k);
            }
        }
        assert forall|k: Key|
            (exists|i: int| 0 <= i < s.len() && (#[trigger] s[i]).0 == k)
            implies #[trigger] entry_map(s).contains_key(k) by {
            let i = choose|i: int| 0 <= i < s.len() && (#[trigger] s[i]).0 == k;
            lemma_entry_map_contains_at(s, i);
        }
    }
}

/// An association table from `Key` to `T` with unique keys, whose view is
/// the `Map` its entries denote.
pub struct Table<T> {
    entries: Vec<(Key, T)>,
}

impl<T> View for Table<T> {
    type V = Map<Key, T>;

    closed spec fn view(&self) -> Map<Key, T> {
        entry_map(self.entries@)
    }
}

impl<T> Table<T> {
    /// The table never holds a key twice.
    pub closed spec fn wf(&self) -> bool {
        distinct_keys(self.entries@)
    }

    pub fn new() -> (t: Table<T>)
        ensures
            t@ == Map::<Key, T>::empty(),
            t.wf(),
    {
        Table { entries: Vec::new() }
    }

    pub fn get(&self, k: Key) -> (r: Option<&T>)
        requires
            self.wf(),
        ensures
            match r {
                Some(v) => self@.contains_key(k) && self@[k] == *v,
                None => !self@.contains_key(k),
            },
    {
        let n = self.entries.len();
        let mut i: usize = 0;
        while i < n
            invariant
                self.wf(),
                n == self.entries@.len(),
                0 <= i <= n,
                forall|j: int| 0 <= j < i ==> (#[trigger] self.entries@[j]).0 != k,
            decreases n - i,
        {
            if self.entries[i].0 == k {
                proof {
                    lemma_entry_map_value_at(self.entries@, i as int);
                }
                return Some(&self.entries[i].1);
            }
            i = i + 1;
        }
        proof {
            lemma_entry_map_absent(self.entries@, k);
        }
        None
    }

    pub fn insert(&mut self, k: Key, v: T)
        requires
            old(self).wf(),
        ensures
            final(self)@ == old(self)@.insert(k, v),
            final(self).wf(),
    {
        let n = self.entries.len();
        let mut i: usize = 0;
        while i < n
            invariant
                self == old(self),
                self.wf(),
                n == self.entries@.len(),
                0 <= i <= n,
                forall|j: int| 0 <= j < i ==> (#[trigger] self.entries@[j]).0 != k,
            decreases n - i,
        {
            if self.entries[i].0 == k {
                proof {
                    lemma_entry_map_update(self.entries@, i as int, v);
                }
                self.entries[i] = (k, v);
                return;
            }
            i = i + 1;
        }
        proof {
            lemma_entry_map_absent(self.entries@, k);
            assert(self.entries@.push((k, v)).drop_last() == self.entries@);
        }
        self.entries.push((k, v));
        assert(self.wf()) by {
            let t = self.entries@;
            assert(forall|j: int| 0 <= j < t.len() - 1 ==> (#[trigger] t[j]).0 != k);
        }
    }

    pub fn remove(&mut self, k: Key)
        requires
            old(self).wf(),
        ensures
            final(self)@ == old(self)@.remove(k),
            final(self).wf(),
    {
        let n = self.entries.len();
        let mut i: usize = 0;
        while i < n
            invariant
                self == old(self),
                self.wf(),
                n == self.entries@.len(),
                0 <= i <= n,
                forall|j: int| 0 <= j < i ==> (#[trigger] self.entries@[j]).0 != k,
            decreases n - i,
        {
            if self.entries[i].0 == k {
                proof {
                    lemma_entry_map_remove(self.entries@, i as int);
                }
                self.entries.remove(i);
                return;
            }
            i = i + 1;
        }
        proof {
            lemma_entry_map_absent(self.entries@, k);
            assert_maps_equal!(self@.remove(k), self@);
        }
    }

    /// Every key of the table, each exactly once.
    pub fn keys(&self) -> (r: Vec<Key>)
        requires
            self.wf(),
        ensures
            forall|k: Key| #[trigger] r@.contains(k) <==> self@.contains_key(k),
            forall|i: int, j: int| 0 <= i < j < r@.len() ==> r@[i] != r@[j],
    {
        let n = self.entries.len();
        let mut r: Vec<Key> = Vec::new();
        let mut i: usize = 0;
        while i < n
            invariant
                self.wf(),
                n == self.entries@.len(),
                0 <= i <= n,
                r@.len() == i,
                forall|j: int| 0 <= j < i ==> r@[j] == (#[trigger] self.entries@[j]).0,
            decreases n - i,
        {
            let k = self.entries[i].0;
            r.push(k);
            i = i + 1;
        }
        proof {
            lemma_entry_map_domain(self.entries@);
            assert forall|i2: int, j2: int| 0 <= i2 < j2 < r@.len()
                implies r@[i2] != r@[j2] by {
                assert(self.entries@[i2].0 != self.entries@[j2].0);
            }
            assert forall|k: Key| #[trigger] r@.contains(k)
                implies self@.contains_key(k) by {
                let j = choose|j: int| 0 <= j < r@.len() && r@[j] == k;
                assert(self.entries@[j].0 == k);
            }
            assert forall|k: Key| self@.contains_key(k)
                implies #[trigger] r@.contains(k) by {
                let j = choose|j: int| 0 <= j < self.entries@.len()
                    && (#[trigger] self.entries@[j]).0 == k;
                assert(r@[j] == k);
            }
        }
        r
    }
}

} // verus!
