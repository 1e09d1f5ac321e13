//! The in-memory maps that the shared application state guards: a
//! string-keyed map for users and sessions and an id-keyed map for polls.
//! Both are association lists whose entries carry pairwise distinct keys,
//! and both are abstracted by a mathematical map over those keys.

use vstd::prelude::*;

verus! {

/// The map denoted by a run of string-keyed entries; a later entry wins
/// over an earlier one with the same key.
pub open spec fn entries_map<V>(s: Seq<(String, V)>) -> Map<Seq<char>, V>
    decreases s.len(),
{
    if s.len() == 0 {
        Map::empty()
    } else {
        entries_map(s.drop_last()).insert(s.last().0@, s.last().1)
    }
}

/// No two entries share a key.
pub open spec fn entry_keys_unique<V>(s: Seq<(String, V)>) -> bool {
    forall|i: int, j: int| 0 <= i < j < s.len() ==> s[i].0@ != s[j].0@
}

proof fn lemma_entries_map_domain<V>(s: Seq<(String, V)>, k: Seq<char>)
    ensures
        entries_map(s).contains_key(k) <==> exists|i: int| 0 <= i < s.len() && s[i].0@ == k,
    decreases s.len(),
{
    if s.len() > 0 {
        let pre = s.drop_last();
        lemma_entries_map_domain(pre, k);
        if s.last().0@ == k {
            assert(s[s.len() - 1].0@ == k);
        } else {
            if entries_map(pre).contains_key(k) {
                let i = choose|i: int| 0 <= i < pre.len() && pre[i].0@ == k;
                assert(s[i].0@ == k);
            }
            if exists|i: int| 0 <= i < s.len() && s[i].0@ == k {
                let i = choose|i: int| 0 <= i < s.len() && s[i].0@ == k;
                assert(pre[i].0@ == k);
            }
        }
    }
}

proof fn lemma_entries_map_get<V>(s: Seq<(String, V)>, i: int)
    requires
        entry_keys_unique(s),
        0 <= i < s.len(),
    ensures
        entries_map(s).contains_key(s[i].0@),
        entries_map(s)[s[i].0@] == s[i].1,
    decreases s.len(),
{
    let pre = s.drop_last();
    if i < s.len() - 1 {
        assert(entry_keys_unique(pre));
        lemma_entries_map_get(pre, i);
        assert(s.last().0@ != s[i].0@);
    }
}

proof fn lemma_entries_map_update<V>(s: Seq<(String, V)>, i: int, e: (String, V))
    requires
        entry_keys_unique(s),
        0 <= i < s.len(),
        e.0@ == s[i].0@,
    ensures
        entry_keys_unique(s.update(i, e)),
        entries_map(s.update(i, e)) == entries_map(s).insert(e.0@, e.1),
    decreases s.len(),
{
    let pre = s.drop_last();
    let t = s.update(i, e);
    if i == s.len() - 1 {
        assert(t.drop_last() =~= pre);
        assert(t.last() == e);
        assert(entries_map(pre).insert(e.0@, e.1) =~= entries_map(s).insert(e.0@, e.1));
    } else {
        assert(entry_keys_unique(pre));
        lemma_entries_map_update(pre, i, e);
        assert(t.drop_last() =~= pre.update(i, e));
        assert(t.last() == s.last());
        assert(s.last().0@ != e.0@);
        assert(entries_map(pre).insert(e.0@, e.1).insert(s.last().0@, s.last().1) =~= entries_map(
            s,
        ).insert(e.0@, e.1));
    }
}

/// A map from usernames or session tokens to their records, stored as an
/// association list with pairwise distinct keys.
pub struct StrMap<V> {
    entries: Vec<(String, V)>,
}

impl<V> View for StrMap<V> {
    type V = Map<Seq<char>, V>;

    closed spec fn view(&self) -> Map<Seq<char>, V> {
        entries_map(self.entries@)
    }
}

impl<V> StrMap<V> {
    /// The entries in storage order, for walking the whole map.
    pub closed spec fn entry_seq(&self) -> Seq<(String, V)> {
        self.entries@
    }

    /// Entries carry pairwise distinct keys; every operation keeps this.
    pub closed spec fn wf(&self) -> bool {
        entry_keys_unique(self.entries@)
    }

    pub fn new() -> (r: Self)
        ensures
            r.wf(),
            r@ == Map::<Seq<char>, V>::empty(),
            r.entry_seq().len() == 0,
    {
        StrMap { entries: Vec::new() }
    }

    pub fn len(&self) -> (r: usize)
        ensures
            r == self.entry_seq().len(),
    {
        self.entries.len()
    }

    pub fn contains_key(&self, k: &String) -> (r: bool)
        requires
            self.wf(),
        ensures
            r == self@.contains_key(k@),
    {
        let n = self.entries.len();
        let mut i: usize = 0;
        while i < n
            invariant
                n == self.entries@.len(),
                i <= n,
                forall|j: int| 0 <= j < i ==> (#[trigger] self.entries@[j]).0@ != k@,
            decreases n - i,
        {
            if self.entries[i].0 == *k {
                proof {
                    lemma_entries_map_domain(self.entries@, k@);
                }
                return true;
            }
            i = i + 1;
        }
        proof {
            lemma_entries_map_domain(self.entries@, k@);
        }
        false
    }

    pub fn get<'a>(&'a self, k: &String) -> (r: Option<&'a V>)
        requires
            self.wf(),
        ensures
            match r {
                Some(v) => self@.contains_key(k@) && *v == self@[k@],
                None => !self@.contains_key(k@),
            },
    {
        let n = self.entries.len();
        let mut i: usize = 0;
        while i < n
            invariant
                n == self.entries@.len(),
                i <= n,
                self.wf(),
                forall|j: int| 0 <= j < i ==> (#[trigger] self.entries@[j]).0@ != k@,
            decreases n - i,
        {
            if self.entries[i].0 == *k {
                proof {
                    lemma_entries_map_get(self.entries@, i as int);
                }
                return Some(&self.entries[i].1);
            }
            i = i + 1;
        }
        proof {
            lemma_entries_map_domain(self.entries@, k@);
        }
        None
    }

    /// Binds the key to the value, replacing what the key was bound to
    /// before, if anything.
    pub fn insert(&mut self, k: String, v: V)
        requires
            old(self).wf(),
        ensures
            final(self).wf(),
            final(self)@ == old(self)@.insert(k@, v),
            final(self).entry_seq().len() <= old(self).entry_seq().len() + 1,
    {
        let n = self.entries.len();
        let mut i: usize = 0;
        while i < n
            invariant
                n == self.entries@.len(),
                i <= n,
                self.wf(),
                self == old(self),
                forall|j: int| 0 <= j < i ==> (#[trigger] self.entries@[j]).0@ != k@,
            decreases n - i,
        {
            if self.entries[i].0 == k {
                proof {
                    lemma_entries_map_update(self.entries@, i as int, (k, v));
                }
                self.entries[i] = (k, v);
                return ;
            }
            i = i + 1;
        }
        let ghost s = self.entries@;
        let ghost kk = k@;
        let ghost vv = v;
        self.entries.push((k, v));
        proof {
            let t = self.entries@;
            assert(t.drop_last() =~= s);
            assert forall|a: int, b: int| 0 <= a < b < t.len() implies t[a].0@ != t[b].0@ by {
                if b == t.len() - 1 {
                    assert(s[a].0@ != kk);
                }
            }
            assert(entries_map(t) == entries_map(s).insert(kk, vv));
        }
    }

    /// The backing entries, for walking the map from the outside.
    pub fn entries(&self) -> (r: &Vec<(String, V)>)
        ensures
            r@ == self.entry_seq(),
    {
        &self.entries
    }
}

/// The map denoted by a run of id-keyed entries; a later entry wins over
/// an earlier one with the same key.
pub open spec fn id_entries_map<V>(s: Seq<(usize, V)>) -> Map<usize, V>
    decreases s.len(),
{
    if s.len() == 0 {
        Map::empty()
    } else {
        id_entries_map(s.drop_last()).insert(s.last().0, s.last().1)
    }
}

/// No two entries share an id.
pub open spec fn id_keys_unique<V>(s: Seq<(usize, V)>) -> bool {
    forall|i: int, j: int| 0 <= i < j < s.len() ==> s[i].0 != s[j].0
}

proof fn lemma_id_map_domain<V>(s: Seq<(usize, V)>, k: usize)
    ensures
        id_entries_map(s).contains_key(k) <==> exists|i: int| 0 <= i < s.len() && s[i].0 == k,
    decreases s.len(),
{
    if s.len() > 0 {
        let pre = s.drop_last();
        lemma_id_map_domain(pre, k);
        if s.last().0 == k {
            assert(s[s.len() - 1].0 == k);
        } else {
            if id_entries_map(pre).contains_key(k) {
                let i = choose|i: int| 0 <= i < pre.len() && pre[i].0 == k;
                assert(s[i].0 == k);
            }
            if exists|i: int| 0 <= i < s.len() && s[i].0 == k {
                let i = choose|i: int| 0 <= i < s.len() && s[i].0 == k;
                assert(pre[i].0 == k);
            }
        }
    }
}

proof fn lemma_id_map_get<V>(s: Seq<(usize, V)>, i: int)
    requires
        id_keys_unique(s),
        0 <= i < s.len(),
    ensures
        id_entries_map(s).contains_key(s[i].0),
        id_entries_map(s)[s[i].0] == s[i].1,
    decreases s.len(),
{
    let pre = s.drop_last();
    if i < s.len() - 1 {
        assert(id_keys_unique(pre));
        lemma_id_map_get(pre, i);
        assert(s.last().0 != s[i].0);
    }
}

proof fn lemma_id_map_update<V>(s: Seq<(usize, V)>, i: int, e: (usize, V))
    requires
        id_keys_unique(s),
        0 <= i < s.len(),
        e.0 == s[i].0,
    ensures
        id_keys_unique(s.update(i, e)),
        id_entries_map(s.update(i, e)) == id_entries_map(s).insert(e.0, e.1),
    decreases s.len(),
{
    let pre = s.drop_last();
    let t = s.update(i, e);
    if i == s.len() - 1 {
        assert(t.drop_last() =~= pre);
        assert(t.last() == e);
        assert(id_entries_map(pre).insert(e.0, e.1) =~= id_entries_map(s).insert(e.0, e.1));
    } else {
        assert(id_keys_unique(pre));
        lemma_id_map_update(pre, i, e);
        assert(t.drop_last() =~= pre.update(i, e));
        assert(t.last() == s.last());
        assert(s.last().0 != e.0);
        assert(id_entries_map(pre).insert(e.0, e.1).insert(s.last().0, s.last().1)
            =~= id_entries_map(s).insert(e.0, e.1));
    }
}

proof fn lemma_id_map_remove<V>(s: Seq<(usize, V)>, i: int)
    requires
        id_keys_unique(s),
        0 <= i < s.len(),
    ensures
        id_keys_unique(s.remove(i)),
        id_entries_map(s.remove(i)) == id_entries_map(s).remove(s[i].0),
    decreases s.len(),
{
    let pre = s.drop_last();
    let t = s.remove(i);
    if i == s.len() - 1 {
        assert(t =~= pre);
        lemma_id_map_domain(pre, s[i].0);
        assert(!id_entries_map(pre).contains_key(s[i].0));
        assert(id_entries_map(pre) =~= id_entries_map(s).remove(s[i].0));
    } else {
        assert(id_keys_unique(pre));
        lemma_id_map_remove(pre, i);
        assert(t.drop_last() =~= pre.remove(i));
        assert(t.last() == s.last());
        assert(s.last().0 != s[i].0);
        assert(id_entries_map(pre).remove(s[i].0).insert(s.last().0, s.last().1)
            =~= id_entries_map(s).remove(s[i].0));
    }
}

/// A map from poll ids to their records, stored as an association list
/// with pairwise distinct ids.
pub struct IdMap<V> {
    entries: Vec<(usize, V)>,
}

impl<V> View for IdMap<V> {
    type V = Map<usize, V>;

    closed spec fn view(&self) -> Map<usize, V> {
        id_entries_map(self.entries@)
    }
}

impl<V> IdMap<V> {
    /// The entries in storage order, for walking the whole map.
    pub closed spec fn entry_seq(&self) -> Seq<(usize, V)> {
        self.entries@
    }

    /// Entries carry pairwise distinct ids; every operation keeps this.
    pub closed spec fn wf(&self) -> bool {
        id_keys_unique(self.entries@)
    }

    pub fn new() -> (r: Self)
        ensures
            r.wf(),
            r@ == Map::<usize, V>::empty(),
            r.entry_seq().len() == 0,
    {
        IdMap { entries: Vec::new() }
    }

    pub fn len(&self) -> (r: usize)
        ensures
            r == self.entry_seq().len(),
    {
        self.entries.len()
    }

    pub fn contains_key(&self, k: usize) -> (r: bool)
        requires
            self.wf(),
        ensures
            r == self@.contains_key(k),
    {
        let n = self.entries.len();
        let mut i: usize = 0;
        while i < n
            invariant
                n == self.entries@.len(),
                i <= n,
                forall|j: int| 0 <= j < i ==> (#[trigger] self.entries@[j]).0 != k,
            decreases n - i,
        {
            if self.entries[i].0 == k {
                proof {
                    lemma_id_map_domain(self.entries@, k);
                }
                return true;
            }
            i = i + 1;
        }
        proof {
            lemma_id_map_domain(self.entries@, k);
        }
        false
    }

    pub fn get<'a>(&'a self, k: usize) -> (r: Option<&'a V>)
        requires
            self.wf(),
        ensures
            match r {
                Some(v) => self@.contains_key(k) && *v == self@[k],
                None => !self@.contains_key(k),
            },
    {
        let n = self.entries.len();
        let mut i: usize = 0;
        while i < n
            invariant
                n == self.entries@.len(),
                i <= n,
                self.wf(),
                forall|j: int| 0 <= j < i ==> (#[trigger] self.entries@[j]).0 != k,
            decreases n - i,
        {
            if self.entries[i].0 == k {
                proof {
                    lemma_id_map_get(self.entries@, i as int);
                }
                return Some(&self.entries[i].1);
            }
            i = i + 1;
        }
        proof {
            lemma_id_map_domain(self.entries@, k);
        }
        None
    }

    /// Binds the id to the value, replacing what the id was bound to
    /// before, if anything.
    pub fn insert(&mut self, k: usize, v: V)
        requires
            old(self).wf(),
        ensures
            final(self).wf(),
            final(self)@ == old(self)@.insert(k, v),
            final(self).entry_seq().len() <= old(self).entry_seq().len() + 1,
    {
        let n = self.entries.len();
        let mut i: usize = 0;
        while i < n
            invariant
                n == self.entries@.len(),
                i <= n,
                self.wf(),
                self == old(self),
                forall|j: int| 0 <= j < i ==> (#[trigger] self.entries@[j]).0 != k,
            decreases n - i,
        {
            if self.entries[i].0 == k {
                proof {
                    lemma_id_map_update(self.entries@, i as int, (k, v));
                }
                self.entries[i] = (k, v);
                return ;
            }
            i = i + 1;
        }
        let ghost s = self.entries@;
        let ghost vv = v;
        self.entries.push((k, v));
        proof {
            let t = self.entries@;
            assert(t.drop_last() =~= s);
            assert forall|a: int, b: int| 0 <= a < b < t.len() implies t[a].0 != t[b].0 by {
                if b == t.len() - 1 {
                    assert(s[a].0 != k);
                }
            }
            assert(id_entries_map(t) == id_entries_map(s).insert(k, vv));
        }
    }

    /// Takes the value bound to the id out of the map, if any.
    pub fn remove(&mut self, k: usize) -> (r: Option<V>)
        requires
            old(self).wf(),
        ensures
            final(self).wf(),
            match r {
                Some(v) => old(self)@.contains_key(k) && v == old(self)@[k] && final(self)@ == old(
                    self,
                )@.remove(k),
                None => !old(self)@.contains_key(k) && final(self)@ == old(self)@,
            },
    {
        let n = self.entries.len();
        let mut i: usize = 0;
        while i < n
            invariant
                n == self.entries@.len(),
                i <= n,
                self.wf(),
                self == old(self),
                forall|j: int| 0 <= j < i ==> (#[trigger] self.entries@[j]).0 != k,
            decreases n - i,
        {
            if self.entries[i].0 == k {
                proof {
                    lemma_id_map_get(self.entries@, i as int);
                    lemma_id_map_remove(self.entries@, i as int);
                }
                let e = self.entries.remove(i);
                return Some(e.1);
            }
            i = i + 1;
        }
        proof {
            lemma_id_map_domain(self.entries@, k);
        }
        None
    }

    /// The backing entries, for walking the map from the outside.
    pub fn entries(&self) -> (r: &Vec<(usize, V)>)
        ensures
            r@ == self.entry_seq(),
    {
        &self.entries
    }
}

} // verus!

