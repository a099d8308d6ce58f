//! A map keyed by strings, kept as a list of distinct keys.

use vstd::prelude::*;

verus! {

/// The map that a list of entries denotes: later entries win.
pub open spec fn entries_map<V>(s: Seq<(String, V)>) -> Map<Seq<char>, V>
    decreases s.len(),
{
    if s.len() == 0 {
        Map::empty()
    } else {
        entries_map(s.drop_last()).insert(s.last().0@, s.last().1)
    }
}

/// No key occurs twice.
pub open spec fn keys_distinct<V>(s: Seq<(String, V)>) -> bool {
    forall|i: int, j: int| 0 <= i < s.len() && 0 <= j < s.len() && i != j ==> s[i].0@ != s[j].0@
}

pub proof fn lemma_entries_domain<V>(s: Seq<(String, V)>, k: Seq<char>)
    ensures
        entries_map(s).contains_key(k) <==> exists|i: int| 0 <= i < s.len() && s[i].0@ == k,
    decreases s.len(),
{
    if s.len() > 0 {
        lemma_entries_domain(s.drop_last(), k);
        if entries_map(s).contains_key(k) && s.last().0@ != k {
            let i = choose|i: int| 0 <= i < s.drop_last().len() && s.drop_last()[i].0@ == k;
            assert(s[i].0@ == k);
        }
        if exists|i: int| 0 <= i < s.len() && s[i].0@ == k {
            let i = choose|i: int| 0 <= i < s.len() && s[i].0@ == k;
            if i < s.len() - 1 {
                assert(s.drop_last()[i].0@ == k);
            }
        }
    }
}

pub proof fn lemma_entries_at<V>(s: Seq<(String, V)>, i: int)
    requires
        keys_distinct(s),
        0 <= i < s.len(),
    ensures
        entries_map(s).contains_key(s[i].0@),
        entries_map(s)[s[i].0@] == s[i].1,
    decreases s.len(),
{
    if i < s.len() - 1 {
        assert(keys_distinct(s.drop_last()));
        lemma_entries_at(s.drop_last(), i);
        assert(s.drop_last()[i] == s[i]);
        assert(s.last().0@ != s[i].0@);
    }
}

pub proof fn lemma_entries_remove<V>(s: Seq<(String, V)>, i: int)
    requires
        keys_distinct(s),
        0 <= i < s.len(),
    ensures
        keys_distinct(s.remove(i)),
        entries_map(s.remove(i)) == entries_map(s).remove(s[i].0@),
    decreases s.len(),
{
    let r = s.remove(i);
    assert forall|a: int, b: int| 0 <= a < r.len() && 0 <= b < r.len() && a != b implies r[a].0@
        != r[b].0@ by {
        let a2 = if a < i {
            a
        } else {
            a + 1
        };
        let b2 = if b < i {
            b
        } else {
            b + 1
        };
        assert(r[a] == s[a2] && r[b] == s[b2]);
    }
    if i == s.len() - 1 {
        assert(r =~= s.drop_last());
        lemma_entries_domain(s.drop_last(), s[i].0@);
        if entries_map(s.drop_last()).contains_key(s[i].0@) {
            let j = choose|j: int| 0 <= j < s.drop_last().len() && s.drop_last()[j].0@ == s[i].0@;
            assert(s[j].0@ == s[i].0@);
        }
        assert(entries_map(r) =~= entries_map(s).remove(s[i].0@));
    } else {
        assert(keys_distinct(s.drop_last()));
        lemma_entries_remove(s.drop_last(), i);
        assert(r.drop_last() =~= s.drop_last().remove(i));
        assert(r.last() == s.last());
        assert(s.last().0@ != s[i].0@);
        assert(entries_map(r) =~= entries_map(s).remove(s[i].0@));
    }
}

/// A map from strings to values.
pub struct StrMap<V> {
    entries: Vec<(String, V)>,
}

impl<V> View for StrMap<V> {
    type V = Map<Seq<char>, V>;

    closed spec fn view(&self) -> Map<Seq<char>, V> {
        entries_map(self.entries@)
    }
}

impl<V> StrMap<V> {
    /// The entries hold distinct keys.
    pub closed spec fn wf(&self) -> bool {
        keys_distinct(self.entries@)
    }

    /// The keys, in the order the entries are kept.
    pub closed spec fn key_list(&self) -> Seq<Seq<char>> {
        self.entries@.map_values(|e: (String, V)| e.0@)
    }

    pub proof fn lemma_key_list(&self)
        requires
            self.wf(),
        ensures
            self.key_list().len() == self@.dom().len(),
            forall|k: Seq<char>| self@.contains_key(k) <==> self.key_list().contains(k),
            self.key_list().no_duplicates(),
            self@.dom().finite(),
    {
        let ks = self.key_list();
        assert forall|k: Seq<char>| self@.contains_key(k) <==> ks.contains(k) by {
            lemma_entries_domain(self.entries@, k);
            if ks.contains(k) {
                let i = choose|i: int| 0 <= i < ks.len() && ks[i] == k;
                assert(self.entries@[i].0@ == k);
            }
            if self@.contains_key(k) {
                let i = choose|i: int| 0 <= i < self.entries@.len() && self.entries@[i].0@ == k;
                assert(ks[i] == k);
            }
        }
        assert(ks.to_set() =~= self@.dom());
        ks.unique_seq_to_set();
    }

    pub fn new() -> (r: Self)
        ensures
            r.wf(),
            r@ == Map::<Seq<char>, V>::empty(),
    {
        StrMap { entries: Vec::new() }
    }

    pub fn len(&self) -> (r: usize)
        requires
            self.wf(),
        ensures
            r == self@.dom().len(),
    {
        proof {
            self.lemma_key_list();
        }
        self.entries.len()
    }

    fn find(&self, key: &String) -> (r: Option<usize>)
        requires
            self.wf(),
        ensures
            match r {
                Some(i) => i < self.entries@.len() && self.entries@[i as int].0@ == key@,
                None => !self@.contains_key(key@),
            },
    {
        let mut i: usize = 0;
        while i < self.entries.len()
            invariant
                i <= self.entries@.len(),
                forall|j: int| 0 <= j < i ==> self.entries@[j].0@ != key@,
            decreases self.entries@.len() - i,
        {
            if self.entries[i].0 == *key {
                return Some(i);
            }
            i = i + 1;
        }
        proof {
            lemma_entries_domain(self.entries@, key@);
        }
        None
    }

    /// The value stored under `key`.
    pub fn get(&self, key: &str) -> (r: Option<&V>)
        requires
            self.wf(),
        ensures
            match r {
                Some(v) => self@.contains_key(key@) && *v == self@[key@],
                None => !self@.contains_key(key@),
            },
    {
        let k = key.to_owned();
        match self.find(&k) {
            Some(i) => {
                proof {
                    lemma_entries_at(self.entries@, i as int);
                }
                Some(&self.entries[i].1)
            },
            None => None,
        }
    }

    /// Stores `v` under `key`, replacing any value there.
    pub fn insert(&mut self, key: &str, v: V)
        requires
            old(self).wf(),
        ensures
            final(self).wf(),
            final(self)@ == old(self)@.insert(key@, v),
    {
        let k = key.to_owned();
        match self.find(&k) {
            Some(i) => {
                proof {
                    lemma_entries_remove(self.entries@, i as int);
                }
                let ghost before = self.entries@;
                let _ = self.entries.remove(i);
                proof {
                    lemma_entries_domain(self.entries@, k@);
                }
                self.entries.push((k, v));
                assert(self.entries@.drop_last() == before.remove(i as int));
                assert(self@ =~= old(self)@.insert(key@, v));
            },
            None => {
                proof {
                    lemma_entries_domain(self.entries@, k@);
                }
                let ghost before = self.entries@;
                self.entries.push((k, v));
                assert(self.entries@.drop_last() == before);
            },
        }
    }

    /// Removes `key` and its value, if present.
    pub fn remove(&mut self, key: &str)
        requires
            old(self).wf(),
        ensures
            final(self).wf(),
            final(self)@ == old(self)@.remove(key@),
    {
        let k = key.to_owned();
        match self.find(&k) {
            Some(i) => {
                proof {
                    lemma_entries_remove(self.entries@, i as int);
                }
                let _ = self.entries.remove(i);
            },
            None => {
                assert(self@ =~= old(self)@.remove(key@));
            },
        }
    }

    /// The keys, one per entry.
    pub fn keys(&self) -> (r: Vec<String>)
        requires
            self.wf(),
        ensures
            r@.map_values(|s: String| s@) == self.key_list(),
    {
        let mut r: Vec<String> = Vec::new();
        let mut i: usize = 0;
        while i < self.entries.len()
            invariant
                i <= self.entries@.len(),
                r@.len() == i,
                r@.map_values(|s: String| s@) == self.key_list().take(i as int),
            decreases self.entries@.len() - i,
        {
            let k = self.entries[i].0.clone();
            let ghost old_r = r@;
            assert(k@ == self.key_list()[i as int]);
            r.push(k);
            assert(r@ == old_r.push(k));
            i = i + 1;
            assert forall|j: int| 0 <= j < i implies r@.map_values(|s: String| s@)[j]
                == self.key_list().take(i as int)[j] by {
                if j < i - 1 {
                    assert(r@[j] == old_r[j]);
                    assert(old_r.map_values(|s: String| s@)[j] == self.key_list().take(i - 1)[j]);
                }
            }
            assert(r@.map_values(|s: String| s@) =~= self.key_list().take(i as int));
        }
        assert(self.key_list().take(self.entries@.len() as int) =~= self.key_list());
        r
    }
}

} // verus!
