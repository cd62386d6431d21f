//! The in-memory backend and the map model of a store's contents.
use vstd::prelude::*;

use crate::pb::{pairs_view, Kvpair, Value, ValueView};

verus! {

/// One stored value, addressed by its table and key.
pub struct Entry {
    pub table: String,
    pub key: String,
    pub value: Value,
}

/// The contents of a store: (table, key) to value.
pub type StoreView = Map<(Seq<char>, Seq<char>), ValueView>;

/// The value stored under `key` in `table`, if any.
pub open spec fn lookup(m: StoreView, table: Seq<char>, key: Seq<char>) -> Option<ValueView> {
    if m.contains_key((table, key)) {
        Some(m[(table, key)])
    } else {
        None
    }
}

/// `pairs` lists the contents of `table` in `m` exactly once each, in some order.
pub open spec fn lists_table(m: StoreView, table: Seq<char>, pairs: Seq<(Seq<char>, ValueView)>) -> bool {
    &&& forall|i: int, j: int|
        0 <= i < pairs.len() && 0 <= j < pairs.len() && #[trigger] pairs[i].0 == #[trigger] pairs[j].0
            ==> i == j
    &&& forall|i: int| 0 <= i < pairs.len() ==> lookup(m, table, #[trigger] pairs[i].0) == Some(pairs[i].1)
    &&& forall|k: Seq<char>| #[trigger] m.contains_key((table, k)) ==> exists|i: int|
        0 <= i < pairs.len() && #[trigger] pairs[i].0 == k
}

pub open spec fn entry_at(s: Seq<Entry>, i: int, table: Seq<char>, key: Seq<char>) -> bool {
    0 <= i < s.len() && s[i].table@ == table && s[i].key@ == key
}

pub open spec fn entries_unique(s: Seq<Entry>) -> bool {
    forall|i: int, j: int|
        0 <= i < s.len() && 0 <= j < s.len() && #[trigger] s[i].table@ == #[trigger] s[j].table@
            && s[i].key@ == s[j].key@ ==> i == j
}

pub open spec fn entries_view(s: Seq<Entry>) -> StoreView {
    Map::new(
        |tk: (Seq<char>, Seq<char>)| exists|i: int| entry_at(s, i, tk.0, tk.1),
        |tk: (Seq<char>, Seq<char>)| s[choose|i: int| entry_at(s, i, tk.0, tk.1)].value@,
    )
}

proof fn lemma_entry_in_view(s: Seq<Entry>, i: int)
    requires
        entries_unique(s),
        0 <= i < s.len(),
    ensures
        entries_view(s).contains_key((s[i].table@, s[i].key@)),
        entries_view(s)[(s[i].table@, s[i].key@)] == s[i].value@,
{
    let tk = (s[i].table@, s[i].key@);
    assert(entry_at(s, i, tk.0, tk.1));
    assert(exists|j: int| entry_at(s, j, tk.0, tk.1));
    assert(entries_view(s).dom().contains(tk));
    let j = choose|j: int| entry_at(s, j, tk.0, tk.1);
    assert(s[j].table@ == s[i].table@);
}

/// The in-memory backend: a list of entries, no two under the same table and key.
pub struct MemTable {
    entries: Vec<Entry>,
}

impl View for MemTable {
    type V = StoreView;

    closed spec fn view(&self) -> StoreView {
        entries_view(self.entries@)
    }
}

impl MemTable {
    pub closed spec fn wf(&self) -> bool {
        entries_unique(self.entries@)
    }

    pub fn new() -> (r: Self)
        ensures
            r.wf(),
            r@ == Map::<(Seq<char>, Seq<char>), ValueView>::empty(),
    {
        let r = MemTable { entries: Vec::new() };
        assert(r@ =~= Map::<(Seq<char>, Seq<char>), ValueView>::empty());
        r
    }

    /// The position of the entry under `table` and `key`.
    fn find(&self, table: &String, key: &String) -> (r: Option<usize>)
        requires
            self.wf(),
        ensures
            match r {
                Some(i) => entry_at(self.entries@, i as int, table@, key@),
                None => !self@.contains_key((table@, key@)),
            },
    {
        let mut i: usize = 0;
        while i < self.entries.len()
            invariant
                i <= self.entries@.len(),
                forall|j: int| 0 <= j < i ==> !entry_at(self.entries@, j, table@, key@),
            decreases self.entries@.len() - i,
        {
            if self.entries[i].table == *table && self.entries[i].key == *key {
                return Some(i);
            }
            i = i + 1;
        }
        None
    }

    pub fn get(&self, table: &str, key: &str) -> (r: Option<Value>)
        requires
            self.wf(),
        ensures
            r matches Some(v) ==> lookup(self@, table@, key@) == Some(v@),
            r is None ==> lookup(self@, table@, key@) is None,
    {
        let t = table.to_owned();
        let k = key.to_owned();
        match self.find(&t, &k) {
            Some(i) => {
                proof {
                    lemma_entry_in_view(self.entries@, i as int);
                }
                Some(self.entries[i].value.clone())
            },
            None => None,
        }
    }

    pub fn contains(&self, table: &str, key: &str) -> (r: bool)
        requires
            self.wf(),
        ensures
            r == self@.contains_key((table@, key@)),
    {
        let t = table.to_owned();
        let k = key.to_owned();
        match self.find(&t, &k) {
            Some(i) => {
                proof {
                    lemma_entry_in_view(self.entries@, i as int);
                }
                true
            },
            None => false,
        }
    }

    /// Stores `value` under `table` and `key`, and returns what was there before.
    pub fn set(&mut self, table: &str, key: String, value: Value) -> (r: Option<Value>)
        requires
            old(self).wf(),
        ensures
            final(self).wf(),
            r matches Some(v) ==> lookup(old(self)@, table@, key@) == Some(v@),
            r is None ==> lookup(old(self)@, table@, key@) is None,
            final(self)@ == old(self)@.insert((table@, key@), value@),
    {
        let t = table.to_owned();
        let ghost old_entries = self.entries@;
        let ghost vv = value@;
        let ghost kv = key@;
        match self.find(&t, &key) {
            Some(i) => {
                proof {
                    lemma_entry_in_view(old_entries, i as int);
                }
                let e = self.entries.remove(i);
                let prev = e.value;
                self.entries.insert(i, Entry { table: e.table, key: e.key, value });
                proof {
                    let s = self.entries@;
                    assert(s =~= old_entries.update(i as int, s[i as int]));
                    assert(entries_unique(s));
                    assert forall|tk: (Seq<char>, Seq<char>)|
                        #[trigger] entries_view(s).contains_key(tk)
                            == old_entries_view_insert(old_entries, t@, kv, vv).contains_key(tk) by {
                        if tk == (t@, kv) {
                            assert(entry_at(s, i as int, tk.0, tk.1));
                        } else {
                            if exists|j: int| entry_at(s, j, tk.0, tk.1) {
                                let j = choose|j: int| entry_at(s, j, tk.0, tk.1);
                                assert(entry_at(old_entries, j, tk.0, tk.1));
                            }
                            if exists|j: int| entry_at(old_entries, j, tk.0, tk.1) {
                                let j = choose|j: int| entry_at(old_entries, j, tk.0, tk.1);
                                assert(entry_at(s, j, tk.0, tk.1));
                            }
                        }
                    }
                    assert forall|tk: (Seq<char>, Seq<char>)| #[trigger]
                        entries_view(s).contains_key(tk) implies entries_view(s)[tk]
                        == old_entries_view_insert(old_entries, t@, kv, vv)[tk] by {
                        let j = choose|j: int| entry_at(s, j, tk.0, tk.1);
                        lemma_entry_in_view(s, j);
                        if tk != (t@, kv) {
                            assert(entry_at(old_entries, j, tk.0, tk.1));
                            lemma_entry_in_view(old_entries, j);
                        }
                    }
                    assert(entries_view(s) =~= old_entries_view_insert(old_entries, t@, kv, vv));
                }
                Some(prev)
            },
            None => {
                self.entries.push(Entry { table: t, key, value });
                proof {
                    let s = self.entries@;
                    let n = old_entries.len() as int;
                    assert(s =~= old_entries.push(s[n]));
                    assert(entries_unique(s)) by {
                        assert forall|a: int, b: int|
                            0 <= a < s.len() && 0 <= b < s.len() && #[trigger] s[a].table@
                                == #[trigger] s[b].table@ && s[a].key@ == s[b].key@ implies a == b by {
                            if a != b && (a == n || b == n) {
                                let o = if a == n { b } else { a };
                                assert(s[o] == old_entries[o]);
                                lemma_entry_in_view(old_entries, o);
                            }
                        }
                    }
                    assert forall|tk: (Seq<char>, Seq<char>)|
                        #[trigger] entries_view(s).contains_key(tk)
                            == old_entries_view_insert(old_entries, table@, kv, vv).contains_key(tk) by {
                        if tk == (table@, kv) {
                            assert(entry_at(s, n, tk.0, tk.1));
                        } else {
                            if exists|j: int| entry_at(s, j, tk.0, tk.1) {
                                let j = choose|j: int| entry_at(s, j, tk.0, tk.1);
                                assert(entry_at(old_entries, j, tk.0, tk.1));
                            }
                            if exists|j: int| entry_at(old_entries, j, tk.0, tk.1) {
                                let j = choose|j: int| entry_at(old_entries, j, tk.0, tk.1);
                                assert(entry_at(s, j, tk.0, tk.1));
                            }
                        }
                    }
                    assert forall|tk: (Seq<char>, Seq<char>)| #[trigger]
                        entries_view(s).contains_key(tk) implies entries_view(s)[tk]
                        == old_entries_view_insert(old_entries, table@, kv, vv)[tk] by {
                        let j = choose|j: int| entry_at(s, j, tk.0, tk.1);
                        lemma_entry_in_view(s, j);
                        if tk != (table@, kv) {
                            assert(entry_at(old_entries, j, tk.0, tk.1));
                            lemma_entry_in_view(old_entries, j);
                        }
                    }
                    assert(entries_view(s) =~= old_entries_view_insert(old_entries, table@, kv, vv));
                }
                None
            },
        }
    }

    /// Removes what is stored under `table` and `key`, and returns it.
    pub fn del(&mut self, table: &str, key: &str) -> (r: Option<Value>)
        requires
            old(self).wf(),
        ensures
            final(self).wf(),
            r matches Some(v) ==> lookup(old(self)@, table@, key@) == Some(v@),
            r is None ==> lookup(old(self)@, table@, key@) is None,
            final(self)@ == old(self)@.remove((table@, key@)),
    {
        let t = table.to_owned();
        let k = key.to_owned();
        let ghost old_entries = self.entries@;
        match self.find(&t, &k) {
            Some(i) => {
                proof {
                    lemma_entry_in_view(old_entries, i as int);
                }
                let e = self.entries.remove(i);
                proof {
                    let s = self.entries@;
                    assert(s =~= old_entries.remove(i as int));
                    assert(entries_unique(s)) by {
                        assert forall|a: int, b: int|
                            0 <= a < s.len() && 0 <= b < s.len() && #[trigger] s[a].table@
                                == #[trigger] s[b].table@ && s[a].key@ == s[b].key@ implies a == b by {
                            let oa = if a < i { a } else { a + 1 };
                            let ob = if b < i { b } else { b + 1 };
                            assert(s[a] == old_entries[oa]);
                            assert(s[b] == old_entries[ob]);
                        }
                    }
                    let target = entries_view(old_entries).remove((t@, k@));
                    assert forall|tk: (Seq<char>, Seq<char>)|
                        #[trigger] entries_view(s).contains_key(tk) == target.contains_key(tk) by {
                        if exists|j: int| entry_at(s, j, tk.0, tk.1) {
                            let j = choose|j: int| entry_at(s, j, tk.0, tk.1);
                            let oj = if j < i { j } else { j + 1 };
                            assert(s[j] == old_entries[oj]);
                            assert(entry_at(old_entries, oj, tk.0, tk.1));
                        }
                        if tk != (t@, k@) && exists|j: int| entry_at(old_entries, j, tk.0, tk.1) {
                            let j = choose|j: int| entry_at(old_entries, j, tk.0, tk.1);
                            let sj = if j < i { j } else { j - 1 };
                            assert(s[sj] == old_entries[j]);
                            assert(entry_at(s, sj, tk.0, tk.1));
                        }
                    }
                    assert forall|tk: (Seq<char>, Seq<char>)| #[trigger]
                        entries_view(s).contains_key(tk) implies entries_view(s)[tk] == target[tk] by {
                        let j = choose|j: int| entry_at(s, j, tk.0, tk.1);
                        lemma_entry_in_view(s, j);
                        let oj = if j < i { j } else { j + 1 };
                        assert(s[j] == old_entries[oj]);
                        lemma_entry_in_view(old_entries, oj);
                    }
                    assert(entries_view(s) =~= target);
                }
                Some(e.value)
            },
            None => {
                assert(self@ =~= self@.remove((t@, k@)));
                None
            },
        }
    }

    /// Every pair stored in `table`, each once, in no particular order.
    pub fn get_all(&self, table: &str) -> (r: Vec<Kvpair>)
        requires
            self.wf(),
        ensures
            lists_table(self@, table@, pairs_view(r@)),
    {
        let t = table.to_owned();
        let mut r: Vec<Kvpair> = Vec::new();
        let mut i: usize = 0;
        let ghost s = self.entries@;
        while i < self.entries.len()
            invariant
                s == self.entries@,
                entries_unique(s),
                i <= s.len(),
                t@ == table@,
                forall|a: int, b: int|
                    0 <= a < r@.len() && 0 <= b < r@.len() && #[trigger] r@[a].key@
                        == #[trigger] r@[b].key@ ==> a == b,
                forall|a: int| #![trigger r@[a]] 0 <= a < r@.len() ==> exists|j: int|
                    0 <= j < i && #[trigger] entry_at(s, j, table@, r@[a].key@) && s[j].value@
                        == r@[a].value@,
                forall|j: int| 0 <= j < i && #[trigger] s[j].table@ == table@ ==> exists|a: int|
                    0 <= a < r@.len() && #[trigger] r@[a].key@ == s[j].key@,
            decreases s.len() - i,
        {
            if self.entries[i].table == t {
                let ghost old_r = r@;
                proof {
                    assert forall|a: int| 0 <= a < old_r.len() implies old_r[a].key@ != s[i as int].key@ by {
                        let j = choose|j: int|
                            0 <= j < i && #[trigger] entry_at(s, j, table@, old_r[a].key@) && s[j].value@
                                == old_r[a].value@;
                        if old_r[a].key@ == s[i as int].key@ {
                            assert(s[j].table@ == s[i as int].table@);
                        }
                    }
                }
                r.push(Kvpair { key: self.entries[i].key.clone(), value: self.entries[i].value.clone() });
                proof {
                    assert forall|a: int| #![trigger r@[a]] 0 <= a < r@.len() implies exists|j: int|
                        0 <= j < i + 1 && #[trigger] entry_at(s, j, table@, r@[a].key@) && s[j].value@
                            == r@[a].value@ by {
                        if a == old_r.len() {
                            assert(entry_at(s, i as int, table@, r@[a].key@));
                        } else {
                            assert(r@[a] == old_r[a]);
                        }
                    }
                    assert forall|j: int| 0 <= j < i + 1 && #[trigger] s[j].table@ == table@ implies exists|a: int|
                        0 <= a < r@.len() && #[trigger] r@[a].key@ == s[j].key@ by {
                        if j == i {
                            assert(r@[old_r.len() as int].key@ == s[j].key@);
                        } else {
                            let a = choose|a: int| 0 <= a < old_r.len() && #[trigger] old_r[a].key@ == s[j].key@;
                            assert(r@[a] == old_r[a]);
                        }
                    }
                }
            }
            i = i + 1;
        }
        proof {
            let p = pairs_view(r@);
            assert forall|a: int| 0 <= a < p.len() implies lookup(self@, table@, #[trigger] p[a].0)
                == Some(p[a].1) by {
                let j = choose|j: int|
                    0 <= j < i && #[trigger] entry_at(s, j, table@, r@[a].key@) && s[j].value@ == r@[a].value@;
                lemma_entry_in_view(s, j);
            }
            assert forall|k: Seq<char>| #[trigger] self@.contains_key((table@, k)) implies exists|a: int|
                0 <= a < p.len() && #[trigger] p[a].0 == k by {
                let j = choose|j: int| entry_at(s, j, table@, k);
                let a = choose|a: int| 0 <= a < r@.len() && #[trigger] r@[a].key@ == s[j].key@;
                assert(p[a].0 == k);
            }
        }
        r
    }
}

spec fn old_entries_view_insert(s: Seq<Entry>, t: Seq<char>, k: Seq<char>, v: ValueView) -> StoreView {
    entries_view(s).insert((t, k), v)
}

} // verus!
